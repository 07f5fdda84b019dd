//! Framed encryption of blobs at rest.
//!
//! A blob is encrypted in frames of 64 KiB, each under a nonce made of a random
//! base nonce of the blob and the index of the frame. A range of the plaintext
//! can thus be read by opening only the frames that it overlaps.
//!
//! On disk a frame is its 16-byte tag followed by its ciphertext. The content
//! address of the plaintext (sigma) is bound to every frame as associated data.

use super::aead_backend::{key_array, AeadError, AesGcmKey, MAX_AAD_LEN, MAX_SEALED_LEN};
use super::kms::KeyManagementService;
use super::{CryptoError, CryptoErrorView};
use crate::text::{decimal_text, joined};
use vstd::prelude::*;
use vstd::slice::{slice_subrange, slice_to_vec};
use vstd::string::*;

verus! {

/// Plaintext bytes of a full frame.
pub const FRAME_SIZE: usize = 65536;

/// Bytes that a frame takes on disk beside its ciphertext: the tag.
pub const FRAME_TAG_SIZE: usize = 16;

/// Bytes that a full frame takes on disk.
pub const FRAME_DISK_SIZE: usize = FRAME_SIZE + FRAME_TAG_SIZE;

/// The four bytes of `n`, the most significant first.
pub open spec fn be_bytes(n: u32) -> Seq<u8> {
    seq![
        (n / 0x100_0000) as u8,
        (n / 0x1_0000 % 0x100) as u8,
        (n / 0x100 % 0x100) as u8,
        (n % 0x100) as u8,
    ]
}

/// The nonce of a frame: the base nonce of the blob, then the frame index.
pub open spec fn nonce_of(base_nonce: Seq<u8>, frame_index: u32) -> Seq<u8> {
    base_nonce + be_bytes(frame_index)
}

/// The index that the `k`-th frame is sealed under: a 32-bit counter.
pub open spec fn index_of(k: int) -> u32 {
    (k % 0x1_0000_0000) as u32
}

/// How many plaintext bytes stand before the `k`-th frame of `size` bytes.
pub open spec fn plain_start(size: int, k: int) -> int {
    if k * FRAME_SIZE <= size {
        k * FRAME_SIZE
    } else {
        size
    }
}

/// Where on disk the `k`-th frame of a blob of `size` bytes begins.
pub open spec fn disk_start(size: int, k: int) -> int {
    k * FRAME_TAG_SIZE + plain_start(size, k)
}

/// How many frames a blob of `size` bytes takes: an empty one takes one frame.
pub open spec fn frame_count(size: int) -> int {
    if size == 0 {
        1
    } else {
        (size + FRAME_SIZE - 1) / FRAME_SIZE as int
    }
}

/// How many plaintext bytes the `k`-th frame of a blob of `size` bytes holds.
pub open spec fn frame_len(size: int, k: int) -> int {
    plain_start(size, k + 1) - plain_start(size, k)
}

/// The plaintext of the `k`-th frame.
pub open spec fn frame_plain(plaintext: Seq<u8>, k: int) -> Seq<u8> {
    plaintext.subrange(
        plain_start(plaintext.len() as int, k),
        plain_start(plaintext.len() as int, k + 1),
    )
}

/// One sealed frame as it stands on disk: the tag, then the ciphertext.
pub open spec fn frame_image(
    key: Seq<u8>,
    aad: Seq<u8>,
    base_nonce: Seq<u8>,
    frame_index: u32,
    plaintext: Seq<u8>,
) -> Seq<u8> {
    let nonce = nonce_of(base_nonce, frame_index);
    let (ciphertext, tag) = super::aead_backend::aes256gcm_seal(key, nonce, aad, plaintext);
    tag + ciphertext
}

/// The first `n` frames of an encrypted blob, one after the other.
pub open spec fn frames_image(
    key: Seq<u8>,
    aad: Seq<u8>,
    base_nonce: Seq<u8>,
    plaintext: Seq<u8>,
    n: int,
) -> Seq<u8>
    decreases n,
{
    if n <= 0 {
        Seq::empty()
    } else {
        frames_image(key, aad, base_nonce, plaintext, n - 1) + frame_image(
            key,
            aad,
            base_nonce,
            index_of(n - 1),
            frame_plain(plaintext, n - 1),
        )
    }
}

/// A whole encrypted blob as it stands on disk.
pub open spec fn disk_image(
    key: Seq<u8>,
    aad: Seq<u8>,
    base_nonce: Seq<u8>,
    plaintext: Seq<u8>,
) -> Seq<u8> {
    frames_image(key, aad, base_nonce, plaintext, frame_count(plaintext.len() as int))
}

/// How many bytes a blob of `size` plaintext bytes takes on disk.
pub open spec fn disk_size(size: int) -> int {
    size + FRAME_TAG_SIZE * frame_count(size)
}

/// The error of sealing a frame whose associated data is too long.
pub open spec fn seal_refused(frame_index: u32) -> CryptoErrorView {
    CryptoErrorView::SigningFailed(
        "frame "@ + crate::text::decimal(frame_index as nat) + " seal: "@
            + AeadError::TooLong.text(),
    )
}

/// What opening one frame yields: its plaintext or the error.
pub open spec fn frame_opened(
    key: Seq<u8>,
    aad: Seq<u8>,
    base_nonce: Seq<u8>,
    frame_index: u32,
    frame: Seq<u8>,
) -> Result<Seq<u8>, CryptoErrorView> {
    if frame.len() < FRAME_TAG_SIZE {
        Err(CryptoErrorView::SigningFailed("frame too short for tag"@))
    } else {
        let tag = frame.subrange(0, FRAME_TAG_SIZE as int);
        let ciphertext = frame.subrange(FRAME_TAG_SIZE as int, frame.len() as int);
        let nonce = nonce_of(base_nonce, frame_index);
        frame_judged(
            frame_index,
            super::aead_backend::open_outcome(key, nonce, aad, ciphertext, tag),
        )
    }
}

/// The frame is the piece of plaintext sealed, opens to it, and would open with no
/// other tag in front of its ciphertext.
pub open spec fn frame_holds(
    key: Seq<u8>,
    aad: Seq<u8>,
    base_nonce: Seq<u8>,
    frame_index: u32,
    frame: Seq<u8>,
    piece: Seq<u8>,
) -> bool {
    &&& frame_opened(key, aad, base_nonce, frame_index, frame) == Ok::<Seq<u8>, CryptoErrorView>(
        piece,
    )
    &&& super::aead_backend::aes256gcm_seal(key, nonce_of(base_nonce, frame_index), aad, piece) == (
        frame.subrange(FRAME_TAG_SIZE as int, frame.len() as int),
        frame.subrange(0, FRAME_TAG_SIZE as int),
    )
    &&& super::aead_backend::only_tag(
        key,
        nonce_of(base_nonce, frame_index),
        aad,
        frame.subrange(FRAME_TAG_SIZE as int, frame.len() as int),
        frame.subrange(0, FRAME_TAG_SIZE as int),
    )
}

/// What opening one frame yields, given what the cipher made of it.
pub open spec fn frame_judged(frame_index: u32, opened: Result<Seq<u8>, AeadError>) -> Result<
    Seq<u8>,
    CryptoErrorView,
> {
    match opened {
        Ok(plaintext) => Ok(plaintext),
        Err(e) => Err(
            CryptoErrorView::SigningFailed(
                "frame "@ + crate::text::decimal(frame_index as nat) + " decrypt: "@ + e.text(),
            ),
        ),
    }
}

/// Tell what opening a frame yields from what the cipher made of it.
pub fn judge_frame(frame_index: u32, opened: Result<Vec<u8>, AeadError>) -> (plaintext: Result<
    Vec<u8>,
    CryptoError,
>)
    ensures
        super::bytes_outcome(plaintext) == frame_judged(
            frame_index,
            match opened {
                Ok(p) => Ok(p@),
                Err(e) => Err(e),
            },
        ),
        opened matches Ok(p) ==> plaintext == Ok::<Vec<u8>, CryptoError>(p),
{
    match opened {
        Ok(p) => Ok(p),
        Err(e) => {
            let mut text = joined("frame ", decimal_text(frame_index as u128).as_str());
            text.append(" decrypt: ");
            text.append(e.message());
            Err(CryptoError::SigningFailed(text))
        },
    }
}

/// `head` in front of bytes, or the error that stands in their place.
pub open spec fn after(head: Seq<u8>, rest: Result<Seq<u8>, CryptoErrorView>) -> Result<
    Seq<u8>,
    CryptoErrorView,
> {
    match rest {
        Ok(tail) => Ok(head + tail),
        Err(e) => Err(e),
    }
}

/// What opening the frames on disk from the `k`-th on yields: their
/// plaintexts in a row, or the error of the first that does not open.
pub open spec fn frames_opened(
    key: Seq<u8>,
    aad: Seq<u8>,
    base_nonce: Seq<u8>,
    size: int,
    disk: Seq<u8>,
    k: int,
) -> Result<Seq<u8>, CryptoErrorView>
    decreases disk.len() - disk_start(size, k),
    when 0 <= k && 0 <= size
{
    let start = disk_start(size, k);
    let end = disk_start(size, k + 1);
    if start >= disk.len() {
        Ok(Seq::empty())
    } else if end > disk.len() {
        Err(CryptoErrorView::SigningFailed("truncated frame"@))
    } else {
        match frame_opened(key, aad, base_nonce, index_of(k), disk.subrange(start, end)) {
            Ok(head) => after(head, frames_opened(key, aad, base_nonce, size, disk, k + 1)),
            Err(e) => Err(e),
        }
    }
}

/// What decrypting a whole blob of `size` plaintext bytes yields.
pub open spec fn decrypted(
    key: Seq<u8>,
    aad: Seq<u8>,
    base_nonce: Seq<u8>,
    size: int,
    disk: Seq<u8>,
) -> Result<Seq<u8>, CryptoErrorView> {
    match frames_opened(key, aad, base_nonce, size, disk, 0) {
        Ok(plaintext) => size_judged(plaintext, size),
        Err(e) => Err(e),
    }
}

/// The plaintext where it has the size that was expected, or the error.
pub open spec fn size_judged(plaintext: Seq<u8>, size: int) -> Result<Seq<u8>, CryptoErrorView> {
    if plaintext.len() == size {
        Ok(plaintext)
    } else {
        Err(
            CryptoErrorView::SigningFailed(
                "decrypted "@ + crate::text::decimal(plaintext.len()) + " bytes but expected "@
                    + crate::text::decimal(size as nat),
            ),
        )
    }
}

/// Accept the plaintext where it has the size that was expected.
pub fn judge_size(plaintext: Vec<u8>, plaintext_size: u64) -> (judged: Result<
    Vec<u8>,
    CryptoError,
>)
    ensures
        super::bytes_outcome(judged) == size_judged(plaintext@, plaintext_size as int),
        judged matches Ok(p) ==> p == plaintext,
{
    if plaintext.len() as u64 != plaintext_size {
        let mut text = joined("decrypted ", decimal_text(plaintext.len() as u128).as_str());
        text.append(" bytes but expected ");
        text.append(decimal_text(plaintext_size as u128).as_str());
        return Err(CryptoError::SigningFailed(text));
    }
    Ok(plaintext)
}

/// The error of a frame that is not on disk as a whole.
pub open spec fn beyond_disk(k: nat, start: nat, len: nat, total: nat) -> CryptoErrorView {
    CryptoErrorView::SigningFailed(
        "frame "@ + crate::text::decimal(k) + " beyond disk (offset="@ + crate::text::decimal(
            start,
        ) + ", len="@ + crate::text::decimal(len) + ", total="@ + crate::text::decimal(total)
            + ")"@,
    )
}

/// What opening the `k`-th frame where it stands on disk yields.
pub open spec fn frame_at(
    key: Seq<u8>,
    aad: Seq<u8>,
    base_nonce: Seq<u8>,
    size: int,
    disk: Seq<u8>,
    k: int,
) -> Result<Seq<u8>, CryptoErrorView> {
    let start = k * FRAME_DISK_SIZE;
    let len = FRAME_TAG_SIZE + frame_len(size, k);
    if start + len > disk.len() {
        Err(beyond_disk(k as nat, start as nat, len as nat, disk.len()))
    } else {
        frame_opened(key, aad, base_nonce, index_of(k), disk.subrange(start, start + len))
    }
}

/// What opening the frames from the `k`-th to the `last` yields: their
/// plaintexts in a row, or the error of the first that does not open.
pub open spec fn span_opened(
    key: Seq<u8>,
    aad: Seq<u8>,
    base_nonce: Seq<u8>,
    size: int,
    disk: Seq<u8>,
    k: int,
    last: int,
) -> Result<Seq<u8>, CryptoErrorView>
    decreases last + 1 - k,
{
    if k > last {
        Ok(Seq::empty())
    } else {
        match frame_at(key, aad, base_nonce, size, disk, k) {
            Ok(head) => after(head, span_opened(key, aad, base_nonce, size, disk, k + 1, last)),
            Err(e) => Err(e),
        }
    }
}

/// Each frame from the `first` to the `last` opens to as many bytes as it holds.
pub open spec fn frames_open_full(
    key: Seq<u8>,
    aad: Seq<u8>,
    base_nonce: Seq<u8>,
    size: int,
    disk: Seq<u8>,
    first: int,
    last: int,
) -> bool {
    forall|k: int|
        first <= k <= last ==> (#[trigger] frame_at(key, aad, base_nonce, size, disk, k)) is Ok
            && frame_at(key, aad, base_nonce, size, disk, k)->Ok_0.len() == frame_len(size, k)
}

/// How many bytes of a blob of `size` the range of `length` from `offset` holds.
pub open spec fn range_len(size: int, offset: int, length: int) -> int {
    if offset >= size {
        0
    } else if length < size - offset {
        length
    } else {
        size - offset
    }
}

/// What decrypting a range of a blob of `size` plaintext bytes yields.
pub open spec fn range_decrypted(
    key: Seq<u8>,
    aad: Seq<u8>,
    base_nonce: Seq<u8>,
    size: int,
    disk: Seq<u8>,
    offset: int,
    length: int,
) -> Result<Seq<u8>, CryptoErrorView> {
    let len = range_len(size, offset, length);
    if len == 0 {
        Ok(Seq::empty())
    } else {
        let first = offset / FRAME_SIZE as int;
        let last = (offset + len - 1) / FRAME_SIZE as int;
        match span_opened(key, aad, base_nonce, size, disk, first, last) {
            Ok(span) => Ok(
                span.subrange(offset - first * FRAME_SIZE, offset - first * FRAME_SIZE + len),
            ),
            Err(e) => Err(e),
        }
    }
}

/// Opening a row of frames in two steps is opening it in one.
proof fn after_after(a: Seq<u8>, b: Seq<u8>, rest: Result<Seq<u8>, CryptoErrorView>)
    ensures
        after(a, after(b, rest)) == after(a + b, rest),
{
    if let Ok(tail) = rest {
        assert(a + (b + tail) =~= (a + b) + tail);
    }
}

/// The `k`-th frame on disk opens to its part of the plaintext.
pub open spec fn frame_opens_at(
    key: Seq<u8>,
    aad: Seq<u8>,
    base_nonce: Seq<u8>,
    plaintext: Seq<u8>,
    disk: Seq<u8>,
    k: int,
) -> bool {
    let size = plaintext.len() as int;
    frame_holds(
        key,
        aad,
        base_nonce,
        index_of(k),
        disk.subrange(disk_start(size, k), disk_start(size, k + 1)),
        frame_plain(plaintext, k),
    )
}

/// The first `n` frames on disk open to their parts of the plaintext.
pub open spec fn frames_open(
    key: Seq<u8>,
    aad: Seq<u8>,
    base_nonce: Seq<u8>,
    plaintext: Seq<u8>,
    disk: Seq<u8>,
    n: int,
) -> bool {
    forall|k: int|
        0 <= k < n ==> #[trigger] frame_opens_at(key, aad, base_nonce, plaintext, disk, k)
}

/// The disk holds exactly the first `n` frames of the plaintext, they hold all
/// of it, and each opens to its part.
pub open spec fn opens_in(
    key: Seq<u8>,
    aad: Seq<u8>,
    base_nonce: Seq<u8>,
    plaintext: Seq<u8>,
    disk: Seq<u8>,
    n: int,
) -> bool {
    &&& 0 <= n
    &&& plain_start(plaintext.len() as int, n) == plaintext.len()
    &&& disk.len() == disk_start(plaintext.len() as int, n)
    &&& disk == frames_image(key, aad, base_nonce, plaintext, n)
    &&& frames_open(key, aad, base_nonce, plaintext, disk, n)
}

/// The disk holds the plaintext, sealed in frames that all open.
pub open spec fn opens_to(
    key: Seq<u8>,
    aad: Seq<u8>,
    base_nonce: Seq<u8>,
    plaintext: Seq<u8>,
    disk: Seq<u8>,
) -> bool {
    exists|n: int| #[trigger] opens_in(key, aad, base_nonce, plaintext, disk, n)
}

/// One more frame behind frames that open.
proof fn frames_open_extend(
    key: Seq<u8>,
    aad: Seq<u8>,
    base_nonce: Seq<u8>,
    plaintext: Seq<u8>,
    disk: Seq<u8>,
    frame: Seq<u8>,
    n: int,
)
    requires
        0 <= n,
        disk.len() == disk_start(plaintext.len() as int, n),
        disk.len() + frame.len() == disk_start(plaintext.len() as int, n + 1),
        frames_open(key, aad, base_nonce, plaintext, disk, n),
        frame_holds(key, aad, base_nonce, index_of(n), frame, frame_plain(plaintext, n)),
    ensures
        frames_open(key, aad, base_nonce, plaintext, disk + frame, n + 1),
{
    let size = plaintext.len() as int;
    assert forall|k: int| 0 <= k < n + 1 implies #[trigger] frame_opens_at(
        key,
        aad,
        base_nonce,
        plaintext,
        disk + frame,
        k,
    ) by {
        let a = disk_start(size, k);
        let b = disk_start(size, k + 1);
        if k < n {
            assert(frame_opens_at(key, aad, base_nonce, plaintext, disk, k));
            assert((disk + frame).subrange(a, b) =~= disk.subrange(a, b));
        } else {
            assert((disk + frame).subrange(a, b) =~= frame);
        }
    }
}

/// Bytes behind the first `n` frames do not change them.
proof fn frames_image_of_prefix(
    key: Seq<u8>,
    aad: Seq<u8>,
    base_nonce: Seq<u8>,
    prefix: Seq<u8>,
    piece: Seq<u8>,
    n: int,
)
    requires
        0 <= n,
        n * FRAME_SIZE <= prefix.len() || piece.len() == 0,
    ensures
        frames_image(key, aad, base_nonce, prefix + piece, n) == frames_image(
            key,
            aad,
            base_nonce,
            prefix,
            n,
        ),
    decreases n,
{
    if piece.len() == 0 {
        assert(prefix + piece =~= prefix);
    } else if n > 0 {
        frames_image_of_prefix(key, aad, base_nonce, prefix, piece, n - 1);
        assert(frame_plain(prefix + piece, n - 1) =~= frame_plain(prefix, n - 1));
    }
}

/// One more frame, with its piece of plaintext, behind a blob that opens.
proof fn opens_in_extend(
    key: Seq<u8>,
    aad: Seq<u8>,
    base_nonce: Seq<u8>,
    prefix: Seq<u8>,
    piece: Seq<u8>,
    disk: Seq<u8>,
    frame: Seq<u8>,
    n: int,
)
    requires
        opens_in(key, aad, base_nonce, prefix, disk, n),
        prefix.len() == n * FRAME_SIZE || piece.len() == 0,
        piece.len() <= FRAME_SIZE,
        frame.len() == FRAME_TAG_SIZE + piece.len(),
        frame == frame_image(key, aad, base_nonce, index_of(n), piece),
        frame_holds(key, aad, base_nonce, index_of(n), frame, piece),
    ensures
        opens_in(key, aad, base_nonce, prefix + piece, disk + frame, n + 1),
{
    let whole = prefix + piece;
    frames_image_of_prefix(key, aad, base_nonce, prefix, piece, n);
    assert(frame_plain(whole, n) =~= piece);
    assert forall|k: int| 0 <= k < n implies #[trigger] frame_opens_at(
        key,
        aad,
        base_nonce,
        whole,
        disk,
        k,
    ) by {
        assert(frame_opens_at(key, aad, base_nonce, prefix, disk, k));
        assert(frame_plain(whole, k) =~= frame_plain(prefix, k));
    }
    frames_open_extend(key, aad, base_nonce, whole, disk, frame, n);
}

/// The frames of a blob, where each opens to its part of the plaintext, open
/// to the whole of it.
proof fn frames_open_to_plaintext(
    key: Seq<u8>,
    aad: Seq<u8>,
    base_nonce: Seq<u8>,
    plaintext: Seq<u8>,
    disk: Seq<u8>,
    n: int,
    k: int,
)
    requires
        0 <= k <= n,
        disk.len() == disk_start(plaintext.len() as int, n),
        plain_start(plaintext.len() as int, n) == plaintext.len(),
        frames_open(key, aad, base_nonce, plaintext, disk, n),
    ensures
        frames_opened(key, aad, base_nonce, plaintext.len() as int, disk, k) == Ok::<
            Seq<u8>,
            CryptoErrorView,
        >(plaintext.subrange(plain_start(plaintext.len() as int, k), plaintext.len() as int)),
    decreases n - k,
{
    let size = plaintext.len() as int;
    if k < n {
        frames_open_to_plaintext(key, aad, base_nonce, plaintext, disk, n, k + 1);
        assert(frame_opens_at(key, aad, base_nonce, plaintext, disk, k));
        assert(frame_plain(plaintext, k) + plaintext.subrange(plain_start(size, k + 1), size)
            =~= plaintext.subrange(plain_start(size, k), size));
    } else {
        assert(plaintext.subrange(size, size) =~= Seq::<u8>::empty());
    }
}

/// The result of encrypting a blob.
pub struct EncryptedBlob {
    /// The on-disk representation: each frame's tag and ciphertext in a row.
    pub disk_bytes: Vec<u8>,
    /// The random base nonce, to be kept with the blob.
    pub base_nonce: [u8; 8],
    /// The plaintext size, to be kept with the blob.
    pub plaintext_size: u64,
}

/// Calls `getrandom::fill` on eight bytes. Nothing is claimed of the bytes, which
/// are random, nor of when the source of randomness fails; a failure comes with
/// the text of its error.
#[verifier::external_body]
pub(crate) fn random_nonce() -> (nonce: Result<[u8; 8], String>) {
    let mut nonce = [0u8; 8];
    match getrandom::fill(&mut nonce) {
        Ok(()) => Ok(nonce),
        Err(e) => Err(e.to_string()),
    }
}

/// The bytes, or the failure, are what one draw of randomness returned.
pub closed spec fn drawn_nonce(drawn: Result<[u8; 8], String>) -> bool {
    call_ensures(random_nonce, (), drawn)
}

/// The error of a frame that is not on disk as a whole.
fn beyond_disk_error(k: u128, start: u128, len: u128, total: u128) -> (error: CryptoError)
    ensures
        error@ == beyond_disk(k as nat, start as nat, len as nat, total as nat),
{
    let mut text = joined("frame ", decimal_text(k).as_str());
    text.append(" beyond disk (offset=");
    text.append(decimal_text(start).as_str());
    text.append(", len=");
    text.append(decimal_text(len).as_str());
    text.append(", total=");
    text.append(decimal_text(total).as_str());
    text.append(")");
    CryptoError::SigningFailed(text)
}

/// Encrypting the plaintext under the base nonce came out as `blob`: its disk
/// image, which opens to the plaintext, or the refusal of associated data that
/// is too long.
pub open spec fn encrypted_under(
    key: Seq<u8>,
    aad: Seq<u8>,
    base_nonce: [u8; 8],
    plaintext: Seq<u8>,
    blob: Result<EncryptedBlob, CryptoError>,
) -> bool {
    match blob {
        Ok(b) => {
            &&& aad.len() <= MAX_AAD_LEN
            &&& b.base_nonce == base_nonce
            &&& b.plaintext_size == plaintext.len()
            &&& b.disk_bytes@ == disk_image(key, aad, base_nonce@, plaintext)
            &&& b.disk_bytes@.len() == disk_size(plaintext.len() as int)
            &&& opens_to(key, aad, base_nonce@, plaintext, b.disk_bytes@)
        },
        Err(e) => aad.len() > MAX_AAD_LEN && e@ == seal_refused(0),
    }
}

/// The counter value of the `k`-th frame.
fn frame_counter(k: u64) -> (index: u32)
    ensures
        index == index_of(k as int),
{
    (k % 0x1_0000_0000) as u32
}

/// How many plaintext bytes the `k`-th frame of a blob holds.
fn frame_size_at(plaintext_size: u64, k: u64) -> (size: usize)
    ensures
        size == frame_len(plaintext_size as int, k as int),
{
    let frame_start: u128 = k as u128 * FRAME_SIZE as u128;
    if frame_start >= plaintext_size as u128 {
        0
    } else {
        let remaining: u64 = plaintext_size - frame_start as u64;
        if remaining < FRAME_SIZE as u64 {
            remaining as usize
        } else {
            FRAME_SIZE
        }
    }
}

/// The plaintext of the `k`-th frame.
fn frame_slice(plaintext: &[u8], k: u64) -> (frame: &[u8])
    requires
        k * FRAME_SIZE <= plaintext@.len(),
    ensures
        frame@ == frame_plain(plaintext@, k as int),
        frame@.len() == frame_len(plaintext@.len() as int, k as int),
        frame@.len() <= FRAME_SIZE,
{
    let len: usize = plaintext.len();
    assert(k <= len);
    let start: usize = k as usize * FRAME_SIZE;
    let end: usize = if len - start < FRAME_SIZE {
        len
    } else {
        start + FRAME_SIZE
    };
    slice_subrange(plaintext, start, end)
}

/// A blob that opens decrypts to its plaintext: what `encrypt` wrote,
/// `decrypt_all` gives back.
pub proof fn law_decrypt_all_inverts_encrypt(
    key: Seq<u8>,
    aad: Seq<u8>,
    base_nonce: Seq<u8>,
    plaintext: Seq<u8>,
    disk: Seq<u8>,
)
    requires
        opens_to(key, aad, base_nonce, plaintext, disk),
    ensures
        decrypted(key, aad, base_nonce, plaintext.len() as int, disk) == Ok::<
            Seq<u8>,
            CryptoErrorView,
        >(plaintext),
{
    let n = choose|n: int| #[trigger] opens_in(key, aad, base_nonce, plaintext, disk, n);
    frames_open_to_plaintext(key, aad, base_nonce, plaintext, disk, n, 0);
    assert(plaintext.subrange(0, plaintext.len() as int) =~= plaintext);
}

/// The frames from the `k`-th to the `last` open to the plaintext that they hold.
proof fn span_opens_to_plaintext(
    key: Seq<u8>,
    aad: Seq<u8>,
    base_nonce: Seq<u8>,
    plaintext: Seq<u8>,
    disk: Seq<u8>,
    n: int,
    k: int,
    last: int,
)
    requires
        opens_in(key, aad, base_nonce, plaintext, disk, n),
        0 <= k <= last + 1,
        last * FRAME_SIZE < plaintext.len(),
    ensures
        span_opened(key, aad, base_nonce, plaintext.len() as int, disk, k, last) == Ok::<
            Seq<u8>,
            CryptoErrorView,
        >(
            plaintext.subrange(
                plain_start(plaintext.len() as int, k),
                plain_start(plaintext.len() as int, last + 1),
            ),
        ),
    decreases last + 1 - k,
{
    let size = plaintext.len() as int;
    if k <= last {
        span_opens_to_plaintext(key, aad, base_nonce, plaintext, disk, n, k + 1, last);
        assert(frame_opens_at(key, aad, base_nonce, plaintext, disk, k));
        assert(k * FRAME_DISK_SIZE == disk_start(size, k));
        assert(disk_start(size, k) + FRAME_TAG_SIZE + frame_len(size, k) == disk_start(
            size,
            k + 1,
        ));
        assert(frame_plain(plaintext, k) + plaintext.subrange(
            plain_start(size, k + 1),
            plain_start(size, last + 1),
        ) =~= plaintext.subrange(plain_start(size, k), plain_start(size, last + 1)));
    } else {
        assert(plaintext.subrange(plain_start(size, k), plain_start(size, k))
            =~= Seq::<u8>::empty());
    }
}

/// Decrypting a range of a blob that opens gives that part of the plaintext:
/// the bytes from `offset` on, as many as were asked for or as there are.
pub proof fn law_decrypt_range_is_subrange(
    key: Seq<u8>,
    aad: Seq<u8>,
    base_nonce: Seq<u8>,
    plaintext: Seq<u8>,
    disk: Seq<u8>,
    offset: int,
    length: int,
)
    requires
        opens_to(key, aad, base_nonce, plaintext, disk),
        0 <= offset,
        0 <= length,
    ensures
        range_decrypted(key, aad, base_nonce, plaintext.len() as int, disk, offset, length) == Ok::<
            Seq<u8>,
            CryptoErrorView,
        >(
            if offset >= plaintext.len() {
                Seq::empty()
            } else if length < plaintext.len() - offset {
                plaintext.subrange(offset, offset + length)
            } else {
                plaintext.subrange(offset, plaintext.len() as int)
            },
        ),
{
    let size = plaintext.len() as int;
    let len = range_len(size, offset, length);
    if len > 0 {
        let n = choose|n: int| #[trigger] opens_in(key, aad, base_nonce, plaintext, disk, n);
        let first = offset / FRAME_SIZE as int;
        let last = (offset + len - 1) / FRAME_SIZE as int;
        span_opens_to_plaintext(key, aad, base_nonce, plaintext, disk, n, first, last);
        let span = plaintext.subrange(plain_start(size, first), plain_start(size, last + 1));
        let a = offset - first * FRAME_SIZE;
        assert(span.subrange(a, a + len) =~= plaintext.subrange(offset, offset + len));
    } else if offset < size {
        assert(plaintext.subrange(offset, offset) =~= Seq::<u8>::empty());
    }
}

/// A disk that opens to a plaintext is not shorter than the plaintext and a tag
/// for each frame that it takes: a truncated blob is refused.
pub proof fn law_truncated_blob_is_refused(
    key: Seq<u8>,
    aad: Seq<u8>,
    base_nonce: Seq<u8>,
    plaintext: Seq<u8>,
    disk: Seq<u8>,
)
    requires
        plaintext.len() > 0,
        disk.len() < disk_size(plaintext.len() as int),
    ensures
        !opens_to(key, aad, base_nonce, plaintext, disk),
{
    let size = plaintext.len() as int;
    assert forall|n: int| !#[trigger] opens_in(key, aad, base_nonce, plaintext, disk, n) by {
        if opens_in(key, aad, base_nonce, plaintext, disk, n) {
            assert(n >= frame_count(size));
        }
    }
}

/// Two blobs of one length that open to the same plaintext under the same key,
/// associated data and base nonce are the same: an altered blob does not decrypt
/// to what it held.
pub proof fn law_one_disk_per_plaintext(
    key: Seq<u8>,
    aad: Seq<u8>,
    base_nonce: Seq<u8>,
    plaintext: Seq<u8>,
    disk: Seq<u8>,
    other: Seq<u8>,
)
    requires
        opens_to(key, aad, base_nonce, plaintext, disk),
        opens_to(key, aad, base_nonce, plaintext, other),
        disk.len() == other.len(),
    ensures
        disk == other,
{
    let n = choose|n: int| #[trigger] opens_in(key, aad, base_nonce, plaintext, disk, n);
    let m = choose|m: int| #[trigger] opens_in(key, aad, base_nonce, plaintext, other, m);
    assert(n == m);
}

/// The ciphertext of the `k`-th frame where it stands on disk.
pub open spec fn ciphertext_at(size: int, disk: Seq<u8>, k: int) -> Seq<u8> {
    disk.subrange(disk_start(size, k) + FRAME_TAG_SIZE, disk_start(size, k + 1))
}

/// The two disks hold the same ciphertexts: they differ in tags, if at all.
pub open spec fn same_ciphertexts(size: int, disk: Seq<u8>, other: Seq<u8>) -> bool {
    &&& disk.len() == other.len()
    &&& forall|k: int|
        0 <= k && disk_start(size, k + 1) <= disk.len() ==> #[trigger] ciphertext_at(size, disk, k)
            == ciphertext_at(size, other, k)
}

/// Frames of which a tag was altered do not open.
proof fn altered_tags_do_not_open(
    key: Seq<u8>,
    aad: Seq<u8>,
    base_nonce: Seq<u8>,
    plaintext: Seq<u8>,
    disk: Seq<u8>,
    other: Seq<u8>,
    n: int,
    k: int,
)
    requires
        opens_in(key, aad, base_nonce, plaintext, disk, n),
        same_ciphertexts(plaintext.len() as int, disk, other),
        0 <= k <= n,
        disk.subrange(disk_start(plaintext.len() as int, k), disk.len() as int) != other.subrange(
            disk_start(plaintext.len() as int, k),
            disk.len() as int,
        ),
    ensures
        frames_opened(key, aad, base_nonce, plaintext.len() as int, other, k) matches Err(e)
            && e is SigningFailed,
    decreases n - k,
{
    let size = plaintext.len() as int;
    let start = disk_start(size, k);
    let end = disk_start(size, k + 1);
    let len = disk.len() as int;
    if k == n {
        assert(disk.subrange(start, len) =~= other.subrange(start, len));
    } else {
        let frame = disk.subrange(start, end);
        let altered = other.subrange(start, end);
        let tag = frame.subrange(0, FRAME_TAG_SIZE as int);
        let changed = altered.subrange(0, FRAME_TAG_SIZE as int);
        let ciphertext = frame.subrange(FRAME_TAG_SIZE as int, frame.len() as int);
        assert(frame_opens_at(key, aad, base_nonce, plaintext, disk, k));
        assert(ciphertext =~= ciphertext_at(size, disk, k));
        assert(altered.subrange(FRAME_TAG_SIZE as int, altered.len() as int) =~= ciphertext_at(
            size,
            other,
            k,
        ));
        if tag == changed {
            assert(frame =~= tag + ciphertext);
            assert(altered =~= changed + ciphertext);
            assert(disk.subrange(start, len) =~= frame + disk.subrange(end, len));
            assert(other.subrange(start, len) =~= altered + other.subrange(end, len));
            altered_tags_do_not_open(key, aad, base_nonce, plaintext, disk, other, n, k + 1);
        }
    }
}

/// A blob of which a tag was altered, in one byte or more, is refused, whatever
/// else of its tags was altered.
pub proof fn law_altered_tag_is_refused(
    key: Seq<u8>,
    aad: Seq<u8>,
    base_nonce: Seq<u8>,
    plaintext: Seq<u8>,
    disk: Seq<u8>,
    other: Seq<u8>,
)
    requires
        opens_to(key, aad, base_nonce, plaintext, disk),
        same_ciphertexts(plaintext.len() as int, disk, other),
        disk != other,
    ensures
        decrypted(key, aad, base_nonce, plaintext.len() as int, other) matches Err(e)
            && e is SigningFailed,
{
    let n = choose|n: int| #[trigger] opens_in(key, aad, base_nonce, plaintext, disk, n);
    assert(disk.subrange(0, disk.len() as int) =~= disk);
    assert(other.subrange(0, disk.len() as int) =~= other);
    altered_tags_do_not_open(key, aad, base_nonce, plaintext, disk, other, n, 0);
}

/// A number is told by its four bytes.
proof fn told_by_bytes(i: u32, j: u32)
    by (bit_vector)
    requires
        i / 0x100_0000 == j / 0x100_0000,
        i / 0x1_0000 % 0x100 == j / 0x1_0000 % 0x100,
        i / 0x100 % 0x100 == j / 0x100 % 0x100,
        i % 0x100 == j % 0x100,
    ensures
        i == j,
{
}

/// Two frames of a blob have different nonces.
pub proof fn law_frame_nonces_differ(base_nonce: Seq<u8>, i: u32, j: u32)
    requires
        nonce_of(base_nonce, i) == nonce_of(base_nonce, j),
    ensures
        i == j,
{
    let n = base_nonce.len() as int;
    let x = be_bytes(i);
    let y = be_bytes(j);
    assert(x =~= y) by {
        assert forall|k: int| 0 <= k < 4 implies x[k] == y[k] by {
            assert(nonce_of(base_nonce, i)[n + k] == x[k]);
            assert(nonce_of(base_nonce, j)[n + k] == y[k]);
        }
    }
    assert(x[0] == y[0] && x[1] == y[1] && x[2] == y[2] && x[3] == y[3]);
    told_by_bytes(i, j);
}

/// The frames of a blob follow each other without a gap and hold exactly its
/// bytes; all but the last are full, and each adds one tag on disk.
pub proof fn law_frames_cover_blob(size: int, k: int)
    requires
        0 <= size,
        0 <= k < frame_count(size),
    ensures
        plain_start(size, 0) == 0,
        plain_start(size, k + 1) == plain_start(size, k) + frame_len(size, k),
        plain_start(size, frame_count(size)) == size,
        disk_start(size, frame_count(size)) == disk_size(size),
        0 <= frame_len(size, k) <= FRAME_SIZE,
        k + 1 < frame_count(size) ==> frame_len(size, k) == FRAME_SIZE,
        size > 0 ==> frame_len(size, k) > 0,
{
}

/// An encryption that takes the plaintext one frame at a time.
pub struct FrameStream {
    /// The base nonce of the blob.
    pub base_nonce: [u8; 8],
    /// Frames sealed so far.
    pub frames: u64,
    /// Plaintext bytes sealed so far.
    pub plaintext_size: u64,
    /// Whether the last frame was sealed.
    pub finished: bool,
}

impl FrameStream {
    /// Every frame but the last is full.
    pub open spec fn wf(self) -> bool {
        !self.finished ==> self.plaintext_size == self.frames * FRAME_SIZE
    }

    /// A stream that nothing was sealed on yet.
    pub fn new(base_nonce: [u8; 8]) -> (stream: Self)
        ensures
            stream == (FrameStream { base_nonce, frames: 0, plaintext_size: 0, finished: false }),
            stream.wf(),
    {
        FrameStream { base_nonce, frames: 0, plaintext_size: 0, finished: false }
    }

    /// A new stream from what drawing its base nonce returned. Where nothing could
    /// be drawn, the text of the failure is kept in the error.
    pub fn from_drawn(drawn: Result<[u8; 8], String>) -> (stream: Result<Self, CryptoError>)
        ensures
            match drawn {
                Ok(base_nonce) => stream matches Ok(s) && s.wf() && s == (FrameStream {
                    base_nonce,
                    frames: 0,
                    plaintext_size: 0,
                    finished: false,
                }),
                Err(text) => stream matches Err(e) && e@ == CryptoErrorView::KeyGeneration(text@),
            },
    {
        match drawn {
            Ok(base_nonce) => Ok(FrameStream::new(base_nonce)),
            Err(text) => Err(CryptoError::KeyGeneration(text)),
        }
    }
}

/// What one step of a stream does with the next chunk of plaintext. An empty
/// chunk ends the stream; behind at least one frame it writes nothing. A chunk
/// shorter than a frame is the last one.
pub open spec fn stream_step(
    key: Seq<u8>,
    aad: Seq<u8>,
    before: FrameStream,
    chunk: Seq<u8>,
    next: FrameStream,
    written: Seq<u8>,
) -> bool {
    &&& next.base_nonce == before.base_nonce
    &&& next.finished == (chunk.len() < FRAME_SIZE)
    &&& if chunk.len() == 0 && before.frames > 0 {
        &&& written == Seq::<u8>::empty()
        &&& next.frames == before.frames
        &&& next.plaintext_size == before.plaintext_size
    } else {
        &&& written == frame_image(
            key,
            aad,
            before.base_nonce@,
            index_of(before.frames as int),
            chunk,
        )
        &&& written.len() == FRAME_TAG_SIZE + chunk.len()
        &&& frame_holds(
            key,
            aad,
            before.base_nonce@,
            index_of(before.frames as int),
            written,
            chunk,
        )
        &&& next.frames == before.frames + 1
        &&& next.plaintext_size == before.plaintext_size + chunk.len()
    }
}

/// The stream has sealed the plaintext up to a frame boundary, or all of it.
pub open spec fn stream_at(
    key: Seq<u8>,
    aad: Seq<u8>,
    stream: FrameStream,
    plaintext: Seq<u8>,
    written: Seq<u8>,
) -> bool {
    &&& stream.wf()
    &&& written == frames_image(
        key,
        aad,
        stream.base_nonce@,
        plaintext,
        stream.frames as int,
    )
    &&& written.len() == disk_start(plaintext.len() as int, stream.frames as int)
    &&& frames_open(
        key,
        aad,
        stream.base_nonce@,
        plaintext,
        written,
        stream.frames as int,
    )
    &&& stream.plaintext_size == plain_start(plaintext.len() as int, stream.frames as int)
    &&& stream.finished ==> stream.frames == frame_count(plaintext.len() as int)
}

/// A stream that is fed the plaintext frame by frame stays on it, and once it is
/// finished it has written what encrypting the plaintext as a whole writes.
pub proof fn law_streaming_matches_encrypt(
    key: Seq<u8>,
    aad: Seq<u8>,
    before: FrameStream,
    next: FrameStream,
    plaintext: Seq<u8>,
    written: Seq<u8>,
    added: Seq<u8>,
)
    requires
        !before.finished,
        stream_at(key, aad, before, plaintext, written),
        stream_step(
            key,
            aad,
            before,
            frame_plain(plaintext, before.frames as int),
            next,
            added,
        ),
    ensures
        stream_at(key, aad, next, plaintext, written + added),
        next.finished ==> {
            &&& written + added == disk_image(key, aad, before.base_nonce@, plaintext)
            &&& opens_to(key, aad, before.base_nonce@, plaintext, written + added)
            &&& next.plaintext_size == plaintext.len()
        },
{
    let n = before.frames as int;
    let chunk = frame_plain(plaintext, n);
    if chunk.len() == 0 && n > 0 {
        assert(written + added =~= written);
    } else {
        frames_open_extend(key, aad, before.base_nonce@, plaintext, written, added, n);
    }
    if next.finished {
        assert(opens_in(
            key,
            aad,
            before.base_nonce@,
            plaintext,
            written + added,
            next.frames as int,
        ));
    }
}

/// A run of a stream: from a new stream on, each step is fed the next frame of the
/// plaintext and adds its piece to what was written.
pub open spec fn streamed(
    key: Seq<u8>,
    aad: Seq<u8>,
    plaintext: Seq<u8>,
    streams: Seq<FrameStream>,
    pieces: Seq<Seq<u8>>,
) -> bool {
    &&& streams.len() == pieces.len() + 1
    &&& streams[0].frames == 0
    &&& streams[0].plaintext_size == 0
    &&& !streams[0].finished
    &&& forall|i: int|
        0 <= i < pieces.len() ==> !streams[i].finished && stream_step(
            key,
            aad,
            streams[i],
            frame_plain(plaintext, streams[i].frames as int),
            streams[i + 1],
            #[trigger] pieces[i],
        )
}

/// After each step a run of a stream stands on the plaintext.
proof fn streamed_stays(
    key: Seq<u8>,
    aad: Seq<u8>,
    plaintext: Seq<u8>,
    streams: Seq<FrameStream>,
    pieces: Seq<Seq<u8>>,
    n: int,
)
    requires
        streamed(key, aad, plaintext, streams, pieces),
        0 <= n <= pieces.len(),
    ensures
        stream_at(key, aad, streams[n], plaintext, crate::parts::in_a_row(pieces.take(n))),
        streams[n].base_nonce == streams[0].base_nonce,
        !streams[n].finished ==> streams[n].frames == n,
        streams[n].finished ==> {
            &&& crate::parts::in_a_row(pieces.take(n)) == disk_image(
                key,
                aad,
                streams[0].base_nonce@,
                plaintext,
            )
            &&& opens_to(
                key,
                aad,
                streams[0].base_nonce@,
                plaintext,
                crate::parts::in_a_row(pieces.take(n)),
            )
            &&& streams[n].plaintext_size == plaintext.len()
        },
    decreases n,
{
    if n > 0 {
        streamed_stays(key, aad, plaintext, streams, pieces, n - 1);
        let piece = pieces[n - 1];
        assert(pieces.take(n).drop_last() =~= pieces.take(n - 1));
        assert(!streams[n - 1].finished);
        law_streaming_matches_encrypt(
            key,
            aad,
            streams[n - 1],
            streams[n],
            plaintext,
            crate::parts::in_a_row(pieces.take(n - 1)),
            piece,
        );
    }
}

/// Feeding a stream all frames of a plaintext in turn writes what encrypting the
/// plaintext as a whole writes, under the base nonce of the stream, and what is
/// written decrypts to the plaintext. The run is over behind the last frame that
/// is not full, at the latest one step past the last frame.
pub proof fn law_streamed_blob(
    key: Seq<u8>,
    aad: Seq<u8>,
    plaintext: Seq<u8>,
    streams: Seq<FrameStream>,
    pieces: Seq<Seq<u8>>,
)
    requires
        streamed(key, aad, plaintext, streams, pieces),
    ensures
        streams.last().finished ==> {
            let written = crate::parts::in_a_row(pieces);
            let base_nonce = streams[0].base_nonce@;
            &&& streams.last().base_nonce == streams[0].base_nonce
            &&& streams.last().plaintext_size == plaintext.len()
            &&& written == disk_image(key, aad, base_nonce, plaintext)
            &&& decrypted(key, aad, base_nonce, plaintext.len() as int, written) == Ok::<
                Seq<u8>,
                CryptoErrorView,
            >(plaintext)
        },
        pieces.len() > frame_count(plaintext.len() as int) ==> streams.last().finished,
{
    let n = pieces.len() as int;
    streamed_stays(key, aad, plaintext, streams, pieces, n);
    assert(pieces.take(n) =~= pieces);
    if streams.last().finished {
        law_decrypt_all_inverts_encrypt(
            key,
            aad,
            streams[0].base_nonce@,
            plaintext,
            crate::parts::in_a_row(pieces),
        );
    } else if n > frame_count(plaintext.len() as int) {
        streamed_stays(key, aad, plaintext, streams, pieces, n - 1);
        assert(stream_step(
            key,
            aad,
            streams[n - 1],
            frame_plain(plaintext, streams[n - 1].frames as int),
            streams[n],
            pieces[n - 1],
        ));
        assert(!streams[n - 1].finished);
    }
}

/// What a whole run of a stream wrote is as long as an encrypted blob is.
pub proof fn law_streamed_length(
    key: Seq<u8>,
    aad: Seq<u8>,
    plaintext: Seq<u8>,
    streams: Seq<FrameStream>,
    pieces: Seq<Seq<u8>>,
)
    requires
        streamed(key, aad, plaintext, streams, pieces),
        streams.last().finished,
    ensures
        crate::parts::in_a_row(pieces).len() == disk_size(plaintext.len() as int),
        opens_to(
            key,
            aad,
            streams[0].base_nonce@,
            plaintext,
            crate::parts::in_a_row(pieces),
        ),
{
    let n = pieces.len() as int;
    streamed_stays(key, aad, plaintext, streams, pieces, n);
    assert(pieces.take(n) =~= pieces);
}

/// Blob encryption context for a single namespace.
pub struct BlobEncryptor {
    key: AesGcmKey,
    raw_key_bytes: [u8; 32],
}

impl View for BlobEncryptor {
    type V = Seq<u8>;

    /// The key bytes.
    closed spec fn view(&self) -> Seq<u8> {
        self.raw_key_bytes@
    }
}

/// The outcome of making an encryptor from derived key material: its key.
pub open spec fn encryptor_key(derived: Result<Vec<u8>, CryptoError>) -> Result<
    Seq<u8>,
    CryptoErrorView,
> {
    match derived {
        Err(e) => Err(e@),
        Ok(bytes) => if bytes@.len() == 32 {
            Ok(bytes@)
        } else {
            Err(CryptoErrorView::InvalidKey)
        },
    }
}

/// An encryptor or an error, each by its view.
pub open spec fn encryptor_outcome(result: Result<BlobEncryptor, CryptoError>) -> Result<
    Seq<u8>,
    CryptoErrorView,
> {
    match result {
        Ok(enc) => Ok(enc@),
        Err(e) => Err(e@),
    }
}

impl BlobEncryptor {
    #[verifier::type_invariant]
    spec fn keyed(self) -> bool {
        self.key@ == self.raw_key_bytes@
    }

    /// Create an encryptor for a namespace from the key that the key
    /// management service derives for it.
    pub fn new<K: KeyManagementService + ?Sized>(kms: &K, namespace: &str) -> (encryptor: Result<
        Self,
        CryptoError,
    >)
        ensures
            exists|derived: Result<Vec<u8>, CryptoError>| #[trigger]
                call_ensures(
                    K::derive_subject_key,
                    (kms, namespace, "_blob_encryption"),
                    derived,
                ) && encryptor_outcome(encryptor) == encryptor_key(derived),
    {
        let derived = kms.derive_subject_key(namespace, "_blob_encryption");
        Self::from_derived(derived)
    }

    /// Create an encryptor from what a key derivation returned.
    pub fn from_derived(derived: Result<Vec<u8>, CryptoError>) -> (encryptor: Result<
        Self,
        CryptoError,
    >)
        ensures
            encryptor_outcome(encryptor) == encryptor_key(derived),
    {
        match derived {
            Err(e) => Err(e),
            Ok(bytes) => match key_array(bytes.as_slice()) {
                None => Err(CryptoError::InvalidKey),
                Some(raw_key_bytes) => match AesGcmKey::new(&raw_key_bytes) {
                    Err(_) => Err(CryptoError::InvalidKey),
                    Ok(key) => Ok(BlobEncryptor { key, raw_key_bytes }),
                },
            },
        }
    }

    /// Construct a new independent encryptor from the same key.
    pub fn clone_for_reader(&self) -> (reader: Result<Self, CryptoError>)
        ensures
            reader matches Ok(r) && r@ == self@,
    {
        match AesGcmKey::new(&self.raw_key_bytes) {
            Err(_) => Err(CryptoError::InvalidKey),
            Ok(key) => Ok(BlobEncryptor { key, raw_key_bytes: self.raw_key_bytes }),
        }
    }

    /// Build the 12-byte nonce of a frame: the base nonce, then the frame
    /// index with its most significant byte first.
    pub fn frame_nonce(base_nonce: &[u8; 8], frame_index: u32) -> (nonce: [u8; 12])
        ensures
            nonce@ == nonce_of(base_nonce@, frame_index),
    {
        let nonce = [
            base_nonce[0], base_nonce[1], base_nonce[2], base_nonce[3],
            base_nonce[4], base_nonce[5], base_nonce[6], base_nonce[7],
            (frame_index / 0x100_0000) as u8,
            (frame_index / 0x1_0000 % 0x100) as u8,
            (frame_index / 0x100 % 0x100) as u8,
            (frame_index % 0x100) as u8,
        ];
        assert(nonce@ =~= nonce_of(base_nonce@, frame_index));
        nonce
    }

    /// Compute the plaintext size of a specific frame given total plaintext size.
    pub fn frame_plaintext_size(plaintext_size: u64, frame_index: u32) -> (size: usize)
        ensures
            size == frame_len(plaintext_size as int, frame_index as int),
    {
        frame_size_at(plaintext_size, frame_index as u64)
    }

    /// Decrypt a single frame read from disk.
    ///
    /// `frame_data` is the tag followed by the ciphertext; `sigma` is the
    /// associated data that the frame was sealed with.
    pub fn decrypt_frame(
        &self,
        sigma: &str,
        base_nonce: &[u8; 8],
        frame_index: u32,
        frame_data: &[u8],
    ) -> (plaintext: Result<Vec<u8>, CryptoError>)
        ensures
            super::bytes_outcome(plaintext) == frame_opened(
                self@,
                sigma.spec_bytes(),
                base_nonce@,
                frame_index,
                frame_data@,
            ),
            plaintext is Ok <==> {
                &&& frame_data@.len() >= FRAME_TAG_SIZE
                &&& frame_data@.len() - FRAME_TAG_SIZE <= MAX_SEALED_LEN
                &&& sigma.spec_bytes().len() <= MAX_AAD_LEN
                &&& super::aead_backend::aes256gcm_open(
                    self@,
                    nonce_of(base_nonce@, frame_index),
                    sigma.spec_bytes(),
                    frame_data@.subrange(FRAME_TAG_SIZE as int, frame_data@.len() as int),
                    frame_data@.subrange(0, FRAME_TAG_SIZE as int),
                ) is Some
            },
            plaintext matches Ok(p) ==> super::aead_backend::aes256gcm_open(
                self@,
                nonce_of(base_nonce@, frame_index),
                sigma.spec_bytes(),
                frame_data@.subrange(FRAME_TAG_SIZE as int, frame_data@.len() as int),
                frame_data@.subrange(0, FRAME_TAG_SIZE as int),
            ) == Some(p@),
            plaintext matches Ok(p) ==> {
                &&& p@.len() + FRAME_TAG_SIZE == frame_data@.len()
                &&& frame_holds(
                    self@,
                    sigma.spec_bytes(),
                    base_nonce@,
                    frame_index,
                    frame_data@,
                    p@,
                )
                &&& frame_data@ == frame_image(
                    self@,
                    sigma.spec_bytes(),
                    base_nonce@,
                    frame_index,
                    p@,
                )
            },
    {
        proof {
            use_type_invariant(self);
        }
        if frame_data.len() < FRAME_TAG_SIZE {
            return Err(CryptoError::SigningFailed("frame too short for tag".to_owned()));
        }
        let tag = slice_subrange(frame_data, 0, FRAME_TAG_SIZE);
        let ciphertext = slice_subrange(frame_data, FRAME_TAG_SIZE, frame_data.len());
        let nonce = Self::frame_nonce(base_nonce, frame_index);
        let mut plaintext: Vec<u8> = vec![0u8; ciphertext.len()];
        match self.key.open_detached(
            nonce.as_slice(),
            sigma.as_bytes(),
            ciphertext,
            tag,
            plaintext.as_mut_slice(),
        ) {
            Ok(()) => {
                assert(frame_data@ =~= tag@ + ciphertext@);
                judge_frame(frame_index, Ok(plaintext))
            },
            Err(e) => judge_frame(frame_index, Err(e)),
        }
    }

    /// Seal one frame: its tag, then its ciphertext.
    fn seal_frame(
        &self,
        sigma: &str,
        base_nonce: &[u8; 8],
        frame_index: u32,
        frame_plaintext: &[u8],
    ) -> (frame: Result<Vec<u8>, CryptoError>)
        requires
            frame_plaintext@.len() <= FRAME_SIZE,
        ensures
            match frame {
                Ok(f) => {
                    &&& sigma.spec_bytes().len() <= MAX_AAD_LEN
                    &&& f@.len() == FRAME_TAG_SIZE + frame_plaintext@.len()
                    &&& (
                        f@.subrange(FRAME_TAG_SIZE as int, f@.len() as int),
                        f@.subrange(0, FRAME_TAG_SIZE as int),
                    ) == super::aead_backend::aes256gcm_seal(
                        self@,
                        nonce_of(base_nonce@, frame_index),
                        sigma.spec_bytes(),
                        frame_plaintext@,
                    )
                    &&& super::aead_backend::aes256gcm_open(
                        self@,
                        nonce_of(base_nonce@, frame_index),
                        sigma.spec_bytes(),
                        f@.subrange(FRAME_TAG_SIZE as int, f@.len() as int),
                        f@.subrange(0, FRAME_TAG_SIZE as int),
                    ) == Some(frame_plaintext@)
                    &&& f@ == frame_image(
                        self@,
                        sigma.spec_bytes(),
                        base_nonce@,
                        frame_index,
                        frame_plaintext@,
                    )
                    &&& frame_holds(
                        self@,
                        sigma.spec_bytes(),
                        base_nonce@,
                        frame_index,
                        f@,
                        frame_plaintext@,
                    )
                },
                Err(e) => {
                    &&& sigma.spec_bytes().len() > MAX_AAD_LEN
                    &&& e@ == seal_refused(frame_index)
                },
            },
    {
        proof {
            use_type_invariant(self);
        }
        let nonce = Self::frame_nonce(base_nonce, frame_index);
        let mut ciphertext: Vec<u8> = vec![0u8; frame_plaintext.len()];
        let mut tag: Vec<u8> = vec![0u8; FRAME_TAG_SIZE];
        match self.key.seal_detached(
            nonce.as_slice(),
            sigma.as_bytes(),
            frame_plaintext,
            ciphertext.as_mut_slice(),
            tag.as_mut_slice(),
        ) {
            Ok(()) => {
                let mut frame = tag;
                let ghost tag_bytes = frame@;
                frame.extend_from_slice(ciphertext.as_slice());
                assert(frame@ =~= tag_bytes + ciphertext@);
                assert(frame@.subrange(0, FRAME_TAG_SIZE as int) =~= tag_bytes);
                assert(frame@.subrange(FRAME_TAG_SIZE as int, frame@.len() as int)
                    =~= ciphertext@);
                Ok(frame)
            },
            Err(e) => {
                let mut text = joined("frame ", decimal_text(frame_index as u128).as_str());
                text.append(" seal: ");
                text.append(e.message());
                Err(CryptoError::SigningFailed(text))
            },
        }
    }

    /// Encrypt a blob in frames under the given base nonce.
    pub fn encrypt_with_nonce(&self, sigma: &str, plaintext: &[u8], base_nonce: [u8; 8]) -> (blob:
        Result<EncryptedBlob, CryptoError>)
        ensures
            encrypted_under(self@, sigma.spec_bytes(), base_nonce, plaintext@, blob),
    {
        let size: u64 = plaintext.len() as u64;
        let count: u64 = if size == 0 {
            1
        } else {
            (size - 1) / FRAME_SIZE as u64 + 1
        };
        let mut disk_bytes: Vec<u8> = Vec::new();
        let mut i: u64 = 0;
        let ghost aad = sigma.spec_bytes();
        while i < count
            invariant
                size == plaintext@.len(),
                aad == sigma.spec_bytes(),
                count == frame_count(size as int),
                1 <= count,
                (count - 1) * FRAME_SIZE <= size <= count * FRAME_SIZE,
                i <= count,
                i > 0 ==> aad.len() <= MAX_AAD_LEN,
                disk_bytes@ == frames_image(self@, aad, base_nonce@, plaintext@, i as int),
                disk_bytes@.len() == disk_start(size as int, i as int),
                frames_open(self@, aad, base_nonce@, plaintext@, disk_bytes@, i as int),
            decreases count - i,
        {
            let frame_plaintext = frame_slice(plaintext, i);
            let frame = match self.seal_frame(
                sigma,
                &base_nonce,
                frame_counter(i),
                frame_plaintext,
            ) {
                Ok(f) => f,
                Err(e) => {
                    return Err(e);
                },
            };
            let ghost before = disk_bytes@;
            disk_bytes.extend_from_slice(frame.as_slice());
            proof {
                assert(disk_bytes@ =~= before + frame@);
                frames_open_extend(
                    self@,
                    aad,
                    base_nonce@,
                    plaintext@,
                    before,
                    frame@,
                    i as int,
                );
            }
            i = i + 1;
        }
        proof {
            assert(opens_in(
                self@,
                aad,
                base_nonce@,
                plaintext@,
                disk_bytes@,
                count as int,
            ));
        }
        Ok(EncryptedBlob { disk_bytes, base_nonce, plaintext_size: size })
    }

    /// Encrypt a blob in frames under a random base nonce.
    pub fn encrypt(&self, sigma: &str, plaintext: &[u8]) -> (blob: Result<
        EncryptedBlob,
        CryptoError,
    >)
        ensures
            exists|drawn: Result<[u8; 8], String>| #[trigger]
                drawn_nonce(drawn) && match drawn {
                    Ok(base_nonce) => encrypted_under(
                        self@,
                        sigma.spec_bytes(),
                        base_nonce,
                        plaintext@,
                        blob,
                    ),
                    Err(text) => blob matches Err(e) && e@ == CryptoErrorView::KeyGeneration(
                        text@,
                    ),
                },
    {
        let drawn = random_nonce();
        assert(drawn_nonce(drawn));
        match drawn {
            Ok(base_nonce) => self.encrypt_with_nonce(sigma, plaintext, base_nonce),
            Err(text) => Err(CryptoError::KeyGeneration(text)),
        }
    }

    /// Decrypt all frames of an encrypted blob.
    pub fn decrypt_all(
        &self,
        sigma: &str,
        disk_bytes: &[u8],
        base_nonce: &[u8; 8],
        plaintext_size: u64,
    ) -> (plaintext: Result<Vec<u8>, CryptoError>)
        ensures
            super::bytes_outcome(plaintext) == decrypted(
                self@,
                sigma.spec_bytes(),
                base_nonce@,
                plaintext_size as int,
                disk_bytes@,
            ),
            plaintext matches Ok(p) ==> opens_to(
                self@,
                sigma.spec_bytes(),
                base_nonce@,
                p@,
                disk_bytes@,
            ),
            plaintext_size > 0 && disk_bytes@.len() < disk_size(plaintext_size as int)
                ==> plaintext is Err,
    {
        let ghost aad = sigma.spec_bytes();
        let ghost size = plaintext_size as int;
        let mut plaintext: Vec<u8> = Vec::new();
        let mut pos: usize = 0;
        let mut k: u64 = 0;
        let ghost whole = frames_opened(self@, aad, base_nonce@, size, disk_bytes@, 0);
        assert(whole matches Ok(w) ==> plaintext@ + w =~= w);
        assert(disk_bytes@.subrange(0, 0) =~= Seq::<u8>::empty());
        assert(frames_image(self@, aad, base_nonce@, plaintext@, 0) =~= Seq::<u8>::empty());
        while pos < disk_bytes.len()
            invariant
                aad == sigma.spec_bytes(),
                size == plaintext_size,
                pos <= disk_bytes@.len(),
                pos == disk_start(size, k as int),
                plaintext@.len() == plain_start(size, k as int),
                opens_in(
                    self@,
                    aad,
                    base_nonce@,
                    plaintext@,
                    disk_bytes@.subrange(0, pos as int),
                    k as int,
                ),
                whole == frames_opened(self@, aad, base_nonce@, size, disk_bytes@, 0),
                whole == after(
                    plaintext@,
                    frames_opened(self@, aad, base_nonce@, size, disk_bytes@, k as int),
                ),
            decreases disk_bytes@.len() - pos,
        {
            let remaining: u64 = plaintext_size - plaintext.len() as u64;
            let frame_ct_len: usize = if remaining < FRAME_SIZE as u64 {
                remaining as usize
            } else {
                FRAME_SIZE
            };
            let frame_disk_len: usize = FRAME_TAG_SIZE + frame_ct_len;
            assert(pos + frame_disk_len == disk_start(size, k + 1));
            if disk_bytes.len() - pos < frame_disk_len {
                return Err(CryptoError::SigningFailed("truncated frame".to_owned()));
            }
            let frame = slice_subrange(disk_bytes, pos, pos + frame_disk_len);
            let frame_pt = match self.decrypt_frame(sigma, base_nonce, frame_counter(k), frame) {
                Ok(p) => p,
                Err(e) => {
                    return Err(e);
                },
            };
            let ghost before = plaintext@;
            plaintext.extend_from_slice(frame_pt.as_slice());
            proof {
                assert(plaintext@ =~= before + frame_pt@);
                opens_in_extend(
                    self@,
                    aad,
                    base_nonce@,
                    before,
                    frame_pt@,
                    disk_bytes@.subrange(0, pos as int),
                    frame@,
                    k as int,
                );
                assert(disk_bytes@.subrange(0, pos as int) + frame@ =~= disk_bytes@.subrange(
                    0,
                    pos + frame_disk_len,
                ));
                after_after(
                    before,
                    frame_pt@,
                    frames_opened(self@, aad, base_nonce@, size, disk_bytes@, k + 1),
                );
            }
            pos = pos + frame_disk_len;
            k = k + 1;
        }
        assert(plaintext@ + Seq::<u8>::empty() =~= plaintext@);
        assert(disk_bytes@.subrange(0, pos as int) =~= disk_bytes@);
        proof {
            if size > 0 && disk_bytes@.len() < disk_size(size) && plaintext@.len() == size {
                law_truncated_blob_is_refused(
                    self@,
                    aad,
                    base_nonce@,
                    plaintext@,
                    disk_bytes@,
                );
            }
        }
        judge_size(plaintext, plaintext_size)
    }

    /// Open the `k`-th frame where it stands on disk.
    fn open_frame_at(
        &self,
        sigma: &str,
        disk_bytes: &[u8],
        base_nonce: &[u8; 8],
        plaintext_size: u64,
        k: u64,
    ) -> (plaintext: Result<Vec<u8>, CryptoError>)
        ensures
            super::bytes_outcome(plaintext) == frame_at(
                self@,
                sigma.spec_bytes(),
                base_nonce@,
                plaintext_size as int,
                disk_bytes@,
                k as int,
            ),
            plaintext matches Ok(p) ==> p@.len() == frame_len(plaintext_size as int, k as int),
    {
        let frame_disk_len: u128 = (FRAME_TAG_SIZE + frame_size_at(plaintext_size, k)) as u128;
        let disk_offset: u128 = k as u128 * FRAME_DISK_SIZE as u128;
        let total: u128 = disk_bytes.len() as u128;
        if disk_offset + frame_disk_len > total {
            return Err(beyond_disk_error(k as u128, disk_offset, frame_disk_len, total));
        }
        let frame = slice_subrange(
            disk_bytes,
            disk_offset as usize,
            (disk_offset + frame_disk_len) as usize,
        );
        self.decrypt_frame(sigma, base_nonce, frame_counter(k), frame)
    }

    /// Open the frames from `first` to `last`, none of which begins behind the
    /// end of the plaintext.
    fn open_span(
        &self,
        sigma: &str,
        disk_bytes: &[u8],
        base_nonce: &[u8; 8],
        plaintext_size: u64,
        first: u64,
        last: u64,
    ) -> (span: Result<Vec<u8>, CryptoError>)
        requires
            first <= last,
            last * FRAME_SIZE < plaintext_size,
        ensures
            super::bytes_outcome(span) == span_opened(
                self@,
                sigma.spec_bytes(),
                base_nonce@,
                plaintext_size as int,
                disk_bytes@,
                first as int,
                last as int,
            ),
            span matches Ok(s) ==> s@.len() == plain_start(plaintext_size as int, last + 1) - first
                * FRAME_SIZE,
            span is Ok ==> frames_open_full(
                self@,
                sigma.spec_bytes(),
                base_nonce@,
                plaintext_size as int,
                disk_bytes@,
                first as int,
                last as int,
            ),
    {
        let ghost aad = sigma.spec_bytes();
        let ghost size = plaintext_size as int;
        let ghost end = last as int;
        let ghost whole = span_opened(
            self@,
            aad,
            base_nonce@,
            size,
            disk_bytes@,
            first as int,
            end,
        );
        let mut span: Vec<u8> = Vec::new();
        let mut k: u64 = first;
        assert(whole matches Ok(w) ==> span@ + w =~= w);
        while k <= last
            invariant
                aad == sigma.spec_bytes(),
                size == plaintext_size,
                end == last,
                first <= k <= last + 1,
                last * FRAME_SIZE < size,
                span@.len() == plain_start(size, k as int) - first * FRAME_SIZE,
                frames_open_full(
                    self@,
                    aad,
                    base_nonce@,
                    size,
                    disk_bytes@,
                    first as int,
                    k - 1,
                ),
                whole == after(
                    span@,
                    span_opened(self@, aad, base_nonce@, size, disk_bytes@, k as int, end),
                ),
                whole == span_opened(
                    self@,
                    aad,
                    base_nonce@,
                    size,
                    disk_bytes@,
                    first as int,
                    end,
                ),
            decreases last + 1 - k,
        {
            let frame_pt = match self.open_frame_at(
                sigma,
                disk_bytes,
                base_nonce,
                plaintext_size,
                k,
            ) {
                Ok(p) => p,
                Err(e) => {
                    return Err(e);
                },
            };
            let ghost before = span@;
            span.extend_from_slice(frame_pt.as_slice());
            proof {
                assert(span@ =~= before + frame_pt@);
                after_after(
                    before,
                    frame_pt@,
                    span_opened(self@, aad, base_nonce@, size, disk_bytes@, k + 1, end),
                );
            }
            k = k + 1;
        }
        assert(span@ + Seq::<u8>::empty() =~= span@);
        Ok(span)
    }

    /// Decrypt the range of `length` bytes from `offset`, opening only the
    /// frames that it overlaps. A range that reaches past the end is cut there.
    pub fn decrypt_range(
        &self,
        sigma: &str,
        disk_bytes: &[u8],
        base_nonce: &[u8; 8],
        plaintext_size: u64,
        offset: u64,
        length: u64,
    ) -> (plaintext: Result<Vec<u8>, CryptoError>)
        ensures
            super::bytes_outcome(plaintext) == range_decrypted(
                self@,
                sigma.spec_bytes(),
                base_nonce@,
                plaintext_size as int,
                disk_bytes@,
                offset as int,
                length as int,
            ),
            plaintext matches Ok(p) ==> p@.len() == range_len(
                plaintext_size as int,
                offset as int,
                length as int,
            ),
            plaintext is Ok && offset < plaintext_size && length > 0 ==> frames_open_full(
                self@,
                sigma.spec_bytes(),
                base_nonce@,
                plaintext_size as int,
                disk_bytes@,
                offset as int / FRAME_SIZE as int,
                (offset + range_len(plaintext_size as int, offset as int, length as int) - 1)
                    / FRAME_SIZE as int,
            ),
    {
        if offset >= plaintext_size {
            return Ok(Vec::new());
        }
        let actual_length: u64 = if length < plaintext_size - offset {
            length
        } else {
            plaintext_size - offset
        };
        if actual_length == 0 {
            return Ok(Vec::new());
        }
        let first: u64 = offset / FRAME_SIZE as u64;
        let last: u64 = (offset + (actual_length - 1)) / FRAME_SIZE as u64;
        assert(first <= last);
        let span = match self.open_span(
            sigma,
            disk_bytes,
            base_nonce,
            plaintext_size,
            first,
            last,
        ) {
            Ok(s) => s,
            Err(e) => {
                return Err(e);
            },
        };
        let slice_start: u64 = offset - first * FRAME_SIZE as u64;
        let slice_end: u64 = slice_start + actual_length;
        assert(slice_end <= span.len());
        let range = slice_subrange(span.as_slice(), slice_start as usize, slice_end as usize);
        Ok(slice_to_vec(range))
    }

    /// Start a streaming encryption under a random base nonce. The nonce, and
    /// whether one can be drawn, is up to the system's source of randomness.
    pub fn begin_streaming(&self) -> (stream: Result<FrameStream, CryptoError>)
        ensures
            stream matches Ok(s) ==> s.wf(),
            exists|drawn: Result<[u8; 8], String>| #[trigger]
                drawn_nonce(drawn) && match drawn {
                    Ok(base_nonce) => stream matches Ok(s) && s == (FrameStream {
                        base_nonce,
                        frames: 0,
                        plaintext_size: 0,
                        finished: false,
                    }),
                    Err(text) => stream matches Err(e) && e@ == CryptoErrorView::KeyGeneration(
                        text@,
                    ),
                },
    {
        let drawn = random_nonce();
        assert(drawn_nonce(drawn));
        FrameStream::from_drawn(drawn)
    }

    /// One step of a streaming encryption: seals the next chunk of plaintext
    /// and returns the bytes to write. The caller reads as many bytes as a frame
    /// holds, fewer only at the end of the input.
    pub fn encrypt_streaming(&self, sigma: &str, stream: &mut FrameStream, chunk: &[u8]) -> (frame:
        Result<Vec<u8>, CryptoError>)
        requires
            old(stream).wf(),
            !old(stream).finished,
            chunk@.len() <= FRAME_SIZE,
            old(stream).plaintext_size + chunk@.len() <= u64::MAX,
        ensures
            final(stream).wf(),
            match frame {
                Ok(f) => {
                    &&& sigma.spec_bytes().len() <= MAX_AAD_LEN || chunk@.len() == 0 && old(
                        stream,
                    ).frames > 0
                    &&& final(stream).base_nonce == old(stream).base_nonce
                    &&& final(stream).finished == (chunk@.len() < FRAME_SIZE)
                    &&& final(stream).plaintext_size == old(stream).plaintext_size + chunk@.len()
                    &&& chunk@.len() == 0 && old(stream).frames > 0 ==> {
                        &&& f@.len() == 0
                        &&& final(stream).frames == old(stream).frames
                    }
                    &&& chunk@.len() > 0 || old(stream).frames == 0 ==> {
                        &&& final(stream).frames == old(stream).frames + 1
                        &&& f@.len() == FRAME_TAG_SIZE + chunk@.len()
                        &&& (
                            f@.subrange(FRAME_TAG_SIZE as int, f@.len() as int),
                            f@.subrange(0, FRAME_TAG_SIZE as int),
                        ) == super::aead_backend::aes256gcm_seal(
                            self@,
                            nonce_of(
                                old(stream).base_nonce@,
                                index_of(old(stream).frames as int),
                            ),
                            sigma.spec_bytes(),
                            chunk@,
                        )
                    }
                    &&& stream_step(
                        self@,
                        sigma.spec_bytes(),
                        *old(stream),
                        chunk@,
                        *final(stream),
                        f@,
                    )
                },
                Err(e) => {
                    &&& sigma.spec_bytes().len() > MAX_AAD_LEN
                    &&& chunk@.len() > 0 || old(stream).frames == 0
                    &&& e@ == seal_refused(index_of(old(stream).frames as int))
                    &&& *final(stream) == *old(stream)
                },
            },
    {
        if chunk.len() == 0 && stream.frames > 0 {
            stream.finished = true;
            return Ok(Vec::new());
        }
        let base_nonce = stream.base_nonce;
        match self.seal_frame(sigma, &base_nonce, frame_counter(stream.frames), chunk) {
            Ok(frame) => {
                stream.plaintext_size = stream.plaintext_size + chunk.len() as u64;
                stream.frames = stream.frames + 1;
                stream.finished = chunk.len() < FRAME_SIZE;
                Ok(frame)
            },
            Err(e) => Err(e),
        }
    }
}

/// Whatever is encrypted, and each stream, is under a base nonce that was drawn for it.
pub(crate) proof fn law_base_nonce_is_drawn(
    encryptor: &BlobEncryptor,
    sigma: &str,
    plaintext: &[u8],
    blob: EncryptedBlob,
    stream: FrameStream,
)
    requires
        call_ensures(
            BlobEncryptor::encrypt,
            (encryptor, sigma, plaintext),
            Ok::<EncryptedBlob, CryptoError>(blob),
        ),
        call_ensures(
            BlobEncryptor::begin_streaming,
            (encryptor,),
            Ok::<FrameStream, CryptoError>(stream),
        ),
    ensures
        call_ensures(random_nonce, (), Ok::<[u8; 8], String>(blob.base_nonce)),
        call_ensures(random_nonce, (), Ok::<[u8; 8], String>(stream.base_nonce)),
{
    let drawn = choose|drawn: Result<[u8; 8], String>| #[trigger]
        drawn_nonce(drawn) && match drawn {
            Ok(base_nonce) => encrypted_under(
                encryptor@,
                sigma.spec_bytes(),
                base_nonce,
                plaintext@,
                Ok::<EncryptedBlob, CryptoError>(blob),
            ),
            Err(text) => false,
        };
    assert(drawn == Ok::<[u8; 8], String>(blob.base_nonce));
    let other = choose|other: Result<[u8; 8], String>| #[trigger]
        drawn_nonce(other) && match other {
            Ok(base_nonce) => stream.base_nonce == base_nonce,
            Err(text) => false,
        };
    assert(other == Ok::<[u8; 8], String>(stream.base_nonce));
}

} // verus!
