//! What blob encryption promises of its calls, in terms of what goes into them,
//! what comes out, and the cipher.

use super::aead::{BlobEncryptor, EncryptedBlob, FrameStream, FRAME_DISK_SIZE, FRAME_SIZE};
use super::aead::{judge_frame, judge_size, FRAME_TAG_SIZE};
use super::aead_backend::{AeadError, MAX_AAD_LEN, MAX_SEALED_LEN};
use super::CryptoError;
use vstd::prelude::*;
use vstd::string::*;

verus! {

/// The nonce is the base nonce followed by the frame index in four bytes, the
/// most significant first.
pub open spec fn nonce_spells(nonce: Seq<u8>, base_nonce: Seq<u8>, frame_index: int) -> bool {
    &&& nonce.len() == 12
    &&& base_nonce.len() == 8
    &&& forall|i: int| 0 <= i < 8 ==> #[trigger] nonce[i] == base_nonce[i]
    &&& 0x100_0000 * nonce[8] + 0x1_0000 * nonce[9] + 0x100 * nonce[10] + nonce[11] == frame_index
}

/// There is one nonce for a base nonce and a frame index.
proof fn one_nonce(nonce: Seq<u8>, base_nonce: Seq<u8>, frame_index: u32)
    ensures
        nonce_spells(nonce, base_nonce, frame_index as int) ==> nonce == super::aead::nonce_of(
            base_nonce,
            frame_index,
        ),
        base_nonce.len() == 8 ==> nonce_spells(
            super::aead::nonce_of(base_nonce, frame_index),
            base_nonce,
            frame_index as int,
        ),
{
    let spelled = super::aead::nonce_of(base_nonce, frame_index);
    let bytes = super::aead::be_bytes(frame_index);
    assert(frame_index == 0x100_0000 * (frame_index / 0x100_0000) + 0x1_0000 * (frame_index
        / 0x1_0000 % 0x100) + 0x100 * (frame_index / 0x100 % 0x100) + frame_index % 0x100)
        by (bit_vector);
    assert(frame_index / 0x100_0000 < 0x100) by (bit_vector);
    if base_nonce.len() == 8 {
        assert(spelled[8] == bytes[0] && spelled[9] == bytes[1] && spelled[10] == bytes[2]
            && spelled[11] == bytes[3]);
    }
    if nonce_spells(nonce, base_nonce, frame_index as int) {
        let n = 0x100_0000 * nonce[8] + 0x1_0000 * nonce[9] + 0x100 * nonce[10] + nonce[11];
        assert(n / 0x100_0000 == nonce[8]);
        assert(n / 0x1_0000 % 0x100 == nonce[9]);
        assert(n / 0x100 % 0x100 == nonce[10]);
        assert(n % 0x100 == nonce[11]);
        assert(nonce =~= spelled);
    }
}

/// The nonce of a frame spells the base nonce and the index of the frame.
pub proof fn law_frame_nonce_spells_index(
    base_nonce: &[u8; 8],
    frame_index: u32,
    nonce: [u8; 12],
)
    requires
        call_ensures(BlobEncryptor::frame_nonce, (base_nonce, frame_index), nonce),
    ensures
        nonce_spells(nonce@, base_nonce@, frame_index as int),
{
    one_nonce(nonce@, base_nonce@, frame_index);
}

/// A frame holds at most 65536 bytes of plaintext: as many of the blob as stand
/// behind the frames before it.
pub proof fn law_frame_plaintext_size(plaintext_size: u64, frame_index: u32, size: usize)
    requires
        call_ensures(BlobEncryptor::frame_plaintext_size, (plaintext_size, frame_index), size),
    ensures
        size <= 65536,
        plaintext_size <= frame_index * 65536 ==> size == 0,
        frame_index * 65536 < plaintext_size <= (frame_index + 1) * 65536 ==> size == plaintext_size
            - frame_index * 65536,
        plaintext_size >= (frame_index + 1) * 65536 ==> size == 65536,
        FRAME_SIZE == 65536,
        FRAME_TAG_SIZE == 16,
        FRAME_DISK_SIZE == 65552,
{
}

/// A frame opens exactly where the cipher opens the bytes behind its tag with its
/// tag, under the key, the nonce that spells the frame and all bytes of the content
/// address, and then to what the cipher gives.
pub proof fn law_frame_opens_by_cipher(
    encryptor: &BlobEncryptor,
    sigma: &str,
    base_nonce: &[u8; 8],
    frame_index: u32,
    frame: &[u8],
    nonce: Seq<u8>,
    plaintext: Result<Vec<u8>, CryptoError>,
)
    requires
        call_ensures(
            BlobEncryptor::decrypt_frame,
            (encryptor, sigma, base_nonce, frame_index, frame),
            plaintext,
        ),
        nonce_spells(nonce, base_nonce@, frame_index as int),
    ensures
        frame@.len() < 16 ==> (plaintext matches Err(CryptoError::SigningFailed(text)) && text@
            == "frame too short for tag"@),
        frame@.len() >= 16 && frame@.len() - 16 <= MAX_SEALED_LEN && sigma.spec_bytes().len()
            <= MAX_AAD_LEN ==> match super::aead_backend::aes256gcm_open(
            encryptor@,
            nonce,
            sigma.spec_bytes(),
            frame@.skip(16),
            frame@.take(16),
        ) {
            Some(opened) => plaintext matches Ok(p) && p@ == opened,
            None => plaintext matches Err(CryptoError::SigningFailed(text)) && text@ == "frame "@
                + crate::text::decimal(frame_index as nat) + " decrypt: authentication failed"@,
        },
        sigma.spec_bytes().len() > MAX_AAD_LEN ==> plaintext is Err,
{
    one_nonce(nonce, base_nonce@, frame_index);
    if frame@.len() >= 16 {
        assert(frame@.skip(16) =~= frame@.subrange(16, frame@.len() as int));
        assert(frame@.take(16) =~= frame@.subrange(0, 16));
    }
    reveal_strlit(" decrypt: ");
    reveal_strlit("authentication failed");
    reveal_strlit(" decrypt: authentication failed");
    assert(" decrypt: "@ + "authentication failed"@ =~= " decrypt: authentication failed"@);
    let head = "frame "@ + crate::text::decimal(frame_index as nat);
    assert(head + " decrypt: "@ + "authentication failed"@ =~= head
        + " decrypt: authentication failed"@);
}

/// The bytes of the `k`-th frame of a blob on disk.
pub open spec fn frame_bytes(disk: Seq<u8>, size: int, k: int) -> Seq<u8> {
    if (k + 1) * 65536 <= size {
        disk.subrange(k * 65552, k * 65552 + 65552)
    } else {
        disk.subrange(k * 65552, k * 65552 + 16 + size - k * 65536)
    }
}

/// The bytes of the plaintext that the `k`-th frame of a blob holds.
pub open spec fn piece_of(plaintext: Seq<u8>, k: int) -> Seq<u8> {
    if (k + 1) * 65536 <= plaintext.len() {
        plaintext.subrange(k * 65536, k * 65536 + 65536)
    } else {
        plaintext.subrange(k * 65536, plaintext.len() as int)
    }
}

/// The frame is the piece sealed by the cipher under the key, the nonce and the
/// associated data, its tag in front, and the cipher opens it to the piece.
pub open spec fn sealed_by_cipher(
    key: Seq<u8>,
    nonce: Seq<u8>,
    aad: Seq<u8>,
    piece: Seq<u8>,
    frame: Seq<u8>,
) -> bool {
    &&& frame.len() == 16 + piece.len()
    &&& super::aead_backend::aes256gcm_seal(key, nonce, aad, piece) == (
        frame.skip(16),
        frame.take(16),
    )
    &&& super::aead_backend::aes256gcm_open(key, nonce, aad, frame.skip(16), frame.take(16))
        == Some(piece)
}

/// Each frame of a blob that opens is its piece of the plaintext, sealed by the
/// cipher under all of the associated data and the nonce that spells the frame.
proof fn frames_are_sealed(
    key: Seq<u8>,
    aad: Seq<u8>,
    base_nonce: Seq<u8>,
    plaintext: Seq<u8>,
    disk: Seq<u8>,
    k: int,
    nonce: Seq<u8>,
)
    requires
        super::aead::opens_to(key, aad, base_nonce, plaintext, disk),
        0 <= k,
        k * 65536 < plaintext.len() || k == 0 && disk.len() > 0,
        nonce_spells(nonce, base_nonce, k % 0x1_0000_0000),
    ensures
        sealed_by_cipher(
            key,
            nonce,
            aad,
            piece_of(plaintext, k),
            frame_bytes(disk, plaintext.len() as int, k),
        ),
        k * 65552 + 16 + piece_of(plaintext, k).len() <= disk.len(),
{
    let size = plaintext.len() as int;
    let n = choose|n: int| #[trigger]
        super::aead::opens_in(key, aad, base_nonce, plaintext, disk, n);
    one_nonce(nonce, base_nonce, super::aead::index_of(k));
    assert(k < n);
    assert(super::aead::frame_opens_at(key, aad, base_nonce, plaintext, disk, k));
    let start = super::aead::disk_start(size, k);
    let end = super::aead::disk_start(size, k + 1);
    assert(start == k * 65552);
    let frame = frame_bytes(disk, size, k);
    assert(frame =~= disk.subrange(start, end));
    assert(piece_of(plaintext, k) =~= super::aead::frame_plain(plaintext, k));
    assert(frame.skip(16) =~= frame.subrange(16, frame.len() as int));
    assert(frame.take(16) =~= frame.subrange(0, 16));
}

/// How many frames a blob takes: one for each 65536 bytes begun, and one where
/// there is no byte.
pub open spec fn frames_taken(size: int) -> int {
    if size == 0 {
        1
    } else if size % 65536 == 0 {
        size / 65536
    } else {
        size / 65536 + 1
    }
}

/// A frame that a blob takes begins before the end of its plaintext, or is the first.
proof fn frame_begins(size: int, k: int)
    requires
        0 <= size,
        0 <= k < frames_taken(size),
    ensures
        k * 65536 < size || k == 0,
        frames_taken(size) == super::aead::frame_count(size),
{
}

/// An encrypted blob has the base nonce that it was given, the size of its plaintext
/// and sixteen bytes more for each frame. Each frame is its piece of the plaintext,
/// sealed by the cipher under all bytes of the content address and the nonce that
/// spells the frame. Nothing but a content address past the limit is refused.
pub proof fn law_encrypted_blob(
    encryptor: &BlobEncryptor,
    sigma: &str,
    plaintext: &[u8],
    base_nonce: [u8; 8],
    k: int,
    nonce: Seq<u8>,
    blob: Result<EncryptedBlob, CryptoError>,
)
    requires
        call_ensures(
            BlobEncryptor::encrypt_with_nonce,
            (encryptor, sigma, plaintext, base_nonce),
            blob,
        ),
        0 <= k < frames_taken(plaintext@.len() as int),
        nonce_spells(nonce, base_nonce@, k % 0x1_0000_0000),
    ensures
        blob is Ok <==> sigma.spec_bytes().len() <= 68_719_476_736,
        blob matches Ok(b) ==> {
            &&& b.base_nonce == base_nonce
            &&& b.plaintext_size == plaintext@.len()
            &&& b.disk_bytes@.len() == plaintext@.len() + 16 * frames_taken(
                plaintext@.len() as int,
            )
            &&& sealed_by_cipher(
                encryptor@,
                nonce,
                sigma.spec_bytes(),
                piece_of(plaintext@, k),
                frame_bytes(b.disk_bytes@, plaintext@.len() as int, k),
            )
        },
        blob matches Err(e) ==> e is SigningFailed,
{
    frame_begins(plaintext@.len() as int, k);
    if let Ok(b) = blob {
        frames_are_sealed(
            encryptor@,
            sigma.spec_bytes(),
            base_nonce@,
            plaintext@,
            b.disk_bytes@,
            k,
            nonce,
        );
    }
}

/// Encrypting under a random base nonce is encrypting under the one that was drawn,
/// which stands in the result. A failed draw is the error, with its text.
pub proof fn law_encrypted_under_drawn_nonce(
    encryptor: &BlobEncryptor,
    sigma: &str,
    plaintext: &[u8],
    k: int,
    nonce: Seq<u8>,
    blob: Result<EncryptedBlob, CryptoError>,
)
    requires
        call_ensures(BlobEncryptor::encrypt, (encryptor, sigma, plaintext), blob),
        0 <= k < frames_taken(plaintext@.len() as int),
        blob matches Ok(b) ==> nonce_spells(nonce, b.base_nonce@, k % 0x1_0000_0000),
    ensures
        blob matches Ok(b) ==> {
            &&& super::aead::drawn_nonce(Ok::<[u8; 8], String>(b.base_nonce))
            &&& b.plaintext_size == plaintext@.len()
            &&& b.disk_bytes@.len() == plaintext@.len() + 16 * frames_taken(
                plaintext@.len() as int,
            )
            &&& sealed_by_cipher(
                encryptor@,
                nonce,
                sigma.spec_bytes(),
                piece_of(plaintext@, k),
                frame_bytes(b.disk_bytes@, plaintext@.len() as int, k),
            )
        },
        blob matches Err(e) ==> (e is SigningFailed && sigma.spec_bytes().len() > 68_719_476_736)
            || (e matches CryptoError::KeyGeneration(text) && exists|drawn: String| #[trigger]
            super::aead::drawn_nonce(Err::<[u8; 8], String>(drawn)) && text@ == drawn@),
{
    let drawn = choose|drawn: Result<[u8; 8], String>| #[trigger]
        super::aead::drawn_nonce(drawn) && match drawn {
            Ok(base_nonce) => super::aead::encrypted_under(
                encryptor@,
                sigma.spec_bytes(),
                base_nonce,
                plaintext@,
                blob,
            ),
            Err(text) => blob matches Err(e) && e@ == super::CryptoErrorView::KeyGeneration(text@),
        };
    frame_begins(plaintext@.len() as int, k);
    if let Ok(b) = blob {
        frames_are_sealed(
            encryptor@,
            sigma.spec_bytes(),
            b.base_nonce@,
            plaintext@,
            b.disk_bytes@,
            k,
            nonce,
        );
    }
}

/// A streaming encryption starts under the base nonce that was drawn, with nothing
/// sealed. A failed draw is the error, with its text.
pub proof fn law_stream_starts_at_nothing(
    encryptor: &BlobEncryptor,
    stream: Result<FrameStream, CryptoError>,
)
    requires
        call_ensures(BlobEncryptor::begin_streaming, (encryptor,), stream),
    ensures
        stream matches Ok(s) ==> {
            &&& super::aead::drawn_nonce(Ok::<[u8; 8], String>(s.base_nonce))
            &&& s.frames == 0
            &&& s.plaintext_size == 0
            &&& !s.finished
        },
        stream matches Err(e) ==> e matches CryptoError::KeyGeneration(text) && exists|
            drawn: String,
        | #[trigger]
            super::aead::drawn_nonce(Err::<[u8; 8], String>(drawn)) && text@ == drawn@,
{
}

/// Decrypting a blob gives as many bytes as were expected, and only where the cipher
/// opens each frame to its piece of them, under all bytes of the content address and
/// the nonce that spells the frame.
pub proof fn law_decrypted_blob(
    encryptor: &BlobEncryptor,
    sigma: &str,
    disk: &[u8],
    base_nonce: &[u8; 8],
    plaintext_size: u64,
    k: int,
    nonce: Seq<u8>,
    plaintext: Result<Vec<u8>, CryptoError>,
)
    requires
        call_ensures(
            BlobEncryptor::decrypt_all,
            (encryptor, sigma, disk, base_nonce, plaintext_size),
            plaintext,
        ),
        0 <= k,
        k * 65536 < plaintext_size,
        nonce_spells(nonce, base_nonce@, k % 0x1_0000_0000),
    ensures
        plaintext matches Ok(p) ==> {
            &&& p@.len() == plaintext_size
            &&& disk@.len() >= plaintext_size + 16 * frames_taken(plaintext_size as int)
            &&& sealed_by_cipher(
                encryptor@,
                nonce,
                sigma.spec_bytes(),
                piece_of(p@, k),
                frame_bytes(disk@, plaintext_size as int, k),
            )
        },
        plaintext matches Err(e) ==> e is SigningFailed,
{
    if let Ok(p) = plaintext {
        frames_are_sealed(
            encryptor@,
            sigma.spec_bytes(),
            base_nonce@,
            p@,
            disk@,
            k,
            nonce,
        );
        if disk@.len() < super::aead::disk_size(plaintext_size as int) {
            super::aead::law_truncated_blob_is_refused(
                encryptor@,
                sigma.spec_bytes(),
                base_nonce@,
                p@,
                disk@,
            );
        }
    } else {
        opened_or_signing_failed(
            encryptor@,
            sigma.spec_bytes(),
            base_nonce@,
            plaintext_size as int,
            disk@,
            0,
        );
    }
}

/// Frames that do not open fail with one kind of error.
proof fn opened_or_signing_failed(
    key: Seq<u8>,
    aad: Seq<u8>,
    base_nonce: Seq<u8>,
    size: int,
    disk: Seq<u8>,
    k: int,
)
    requires
        0 <= k,
        0 <= size,
    ensures
        super::aead::frames_opened(key, aad, base_nonce, size, disk, k) matches Err(e)
            ==> e is SigningFailed,
    decreases disk.len() - super::aead::disk_start(size, k),
{
    let start = super::aead::disk_start(size, k);
    let end = super::aead::disk_start(size, k + 1);
    if start < disk.len() && end <= disk.len() {
        assert(end > start);
        opened_or_signing_failed(key, aad, base_nonce, size, disk, k + 1);
    }
}

/// The frames from the `k`-th on, each of which opens, open to what they hold.
proof fn opened_frames_make_plaintext(
    key: Seq<u8>,
    aad: Seq<u8>,
    base_nonce: Seq<u8>,
    plaintext: Seq<u8>,
    disk: Seq<u8>,
    n: int,
    k: int,
)
    requires
        0 <= k <= n,
        disk.len() == super::aead::disk_start(plaintext.len() as int, n),
        super::aead::plain_start(plaintext.len() as int, n) == plaintext.len(),
        forall|i: int|
            0 <= i < n ==> super::aead::frame_opened(
                key,
                aad,
                base_nonce,
                super::aead::index_of(i),
                #[trigger] disk.subrange(
                    super::aead::disk_start(plaintext.len() as int, i),
                    super::aead::disk_start(plaintext.len() as int, i + 1),
                ),
            ) == Ok::<Seq<u8>, super::CryptoErrorView>(super::aead::frame_plain(plaintext, i)),
    ensures
        super::aead::frames_opened(key, aad, base_nonce, plaintext.len() as int, disk, k) == Ok::<
            Seq<u8>,
            super::CryptoErrorView,
        >(
            plaintext.subrange(
                super::aead::plain_start(plaintext.len() as int, k),
                plaintext.len() as int,
            ),
        ),
    decreases n - k,
{
    let size = plaintext.len() as int;
    if k < n {
        opened_frames_make_plaintext(key, aad, base_nonce, plaintext, disk, n, k + 1);
        let frame = disk.subrange(
            super::aead::disk_start(size, k),
            super::aead::disk_start(size, k + 1),
        );
        assert(super::aead::frame_opened(
            key,
            aad,
            base_nonce,
            super::aead::index_of(k),
            frame,
        ) is Ok);
        assert(super::aead::frame_plain(plaintext, k) + plaintext.subrange(
            super::aead::plain_start(size, k + 1),
            size,
        ) =~= plaintext.subrange(super::aead::plain_start(size, k), size));
    } else {
        assert(plaintext.subrange(size, size) =~= Seq::<u8>::empty());
    }
}

/// The cipher opens the `k`-th frame on disk to its piece of the plaintext.
pub open spec fn cipher_opens(
    key: Seq<u8>,
    base_nonce: Seq<u8>,
    aad: Seq<u8>,
    plaintext: Seq<u8>,
    disk: Seq<u8>,
    k: int,
) -> bool {
    let frame = frame_bytes(disk, plaintext.len() as int, k);
    forall|nonce: Seq<u8>|
        nonce_spells(nonce, base_nonce, k % 0x1_0000_0000)
            ==> #[trigger] super::aead_backend::aes256gcm_open(
            key,
            nonce,
            aad,
            frame.skip(16),
            frame.take(16),
        ) == Some(piece_of(plaintext, k))
}

/// A disk of the right length, each frame of which the cipher opens to its piece of
/// a plaintext, decrypts to that plaintext, whoever wrote it.
pub proof fn law_opened_frames_decrypt(
    encryptor: &BlobEncryptor,
    sigma: &str,
    disk: &[u8],
    base_nonce: &[u8; 8],
    plaintext_size: u64,
    expected: Seq<u8>,
    plaintext: Result<Vec<u8>, CryptoError>,
)
    requires
        call_ensures(
            BlobEncryptor::decrypt_all,
            (encryptor, sigma, disk, base_nonce, plaintext_size),
            plaintext,
        ),
        expected.len() == plaintext_size,
        sigma.spec_bytes().len() <= MAX_AAD_LEN,
        disk@.len() == plaintext_size + 16 * frames_taken(plaintext_size as int),
        forall|k: int|
            0 <= k < frames_taken(plaintext_size as int) ==> #[trigger] cipher_opens(
                encryptor@,
                base_nonce@,
                sigma.spec_bytes(),
                expected,
                disk@,
                k,
            ),
    ensures
        plaintext matches Ok(p) && p@ == expected,
{
    let key = encryptor@;
    let aad = sigma.spec_bytes();
    let size = plaintext_size as int;
    let n = frames_taken(size);
    assert(n == super::aead::frame_count(size));
    assert forall|i: int| 0 <= i < n implies super::aead::frame_opened(
        key,
        aad,
        base_nonce@,
        super::aead::index_of(i),
        #[trigger] disk@.subrange(
            super::aead::disk_start(size, i),
            super::aead::disk_start(size, i + 1),
        ),
    ) == Ok::<Seq<u8>, super::CryptoErrorView>(super::aead::frame_plain(expected, i)) by {
        let start = super::aead::disk_start(size, i);
        let end = super::aead::disk_start(size, i + 1);
        let nonce = super::aead::nonce_of(base_nonce@, super::aead::index_of(i));
        one_nonce(nonce, base_nonce@, super::aead::index_of(i));
        assert(cipher_opens(key, base_nonce@, aad, expected, disk@, i));
        let frame = frame_bytes(disk@, size, i);
        assert(start == i * 65552);
        assert(frame =~= disk@.subrange(start, end));
        assert(frame.skip(16) =~= frame.subrange(16, frame.len() as int));
        assert(frame.take(16) =~= frame.subrange(0, 16));
        assert(piece_of(expected, i) =~= super::aead::frame_plain(expected, i));
    }
    opened_frames_make_plaintext(key, aad, base_nonce@, expected, disk@, n, 0);
    assert(expected.subrange(0, size) =~= expected);
}

/// What was encrypted decrypts to itself, whole and by range, under the same key,
/// content address and base nonce.
pub proof fn law_decryption_undoes_encryption(
    encryptor: &BlobEncryptor,
    sigma: &str,
    plaintext: &[u8],
    base_nonce: [u8; 8],
    blob: EncryptedBlob,
    reader: &BlobEncryptor,
    disk: &[u8],
    whole: Result<Vec<u8>, CryptoError>,
    offset: u64,
    length: u64,
    range: Result<Vec<u8>, CryptoError>,
)
    requires
        call_ensures(
            BlobEncryptor::encrypt_with_nonce,
            (encryptor, sigma, plaintext, base_nonce),
            Ok::<EncryptedBlob, CryptoError>(blob),
        ),
        reader@ == encryptor@,
        disk@ == blob.disk_bytes@,
        call_ensures(
            BlobEncryptor::decrypt_all,
            (reader, sigma, disk, &blob.base_nonce, blob.plaintext_size),
            whole,
        ),
        call_ensures(
            BlobEncryptor::decrypt_range,
            (reader, sigma, disk, &blob.base_nonce, blob.plaintext_size, offset, length),
            range,
        ),
    ensures
        whole matches Ok(p) && p@ == plaintext@,
        range matches Ok(q) && q@ == if offset >= plaintext@.len() {
            Seq::empty()
        } else if offset + length <= plaintext@.len() {
            plaintext@.subrange(offset as int, offset + length)
        } else {
            plaintext@.subrange(offset as int, plaintext@.len() as int)
        },
{
    super::aead::law_decrypt_all_inverts_encrypt(
        encryptor@,
        sigma.spec_bytes(),
        base_nonce@,
        plaintext@,
        disk@,
    );
    super::aead::law_decrypt_range_is_subrange(
        encryptor@,
        sigma.spec_bytes(),
        base_nonce@,
        plaintext@,
        disk@,
        offset as int,
        length as int,
    );
}

/// A range of any blob that decrypts is that part of what it decrypts to: the bytes
/// from the offset on, as many as were asked for or as there are.
pub proof fn law_range_is_part_of_whole(
    encryptor: &BlobEncryptor,
    sigma: &str,
    disk: &[u8],
    base_nonce: &[u8; 8],
    plaintext_size: u64,
    whole: Vec<u8>,
    offset: u64,
    length: u64,
    range: Result<Vec<u8>, CryptoError>,
)
    requires
        call_ensures(
            BlobEncryptor::decrypt_all,
            (encryptor, sigma, disk, base_nonce, plaintext_size),
            Ok::<Vec<u8>, CryptoError>(whole),
        ),
        call_ensures(
            BlobEncryptor::decrypt_range,
            (encryptor, sigma, disk, base_nonce, plaintext_size, offset, length),
            range,
        ),
    ensures
        whole@.len() == plaintext_size,
        range matches Ok(q) && q@ == if offset >= plaintext_size {
            Seq::empty()
        } else if offset + length <= plaintext_size {
            whole@.subrange(offset as int, offset + length)
        } else {
            whole@.subrange(offset as int, plaintext_size as int)
        },
{
    super::aead::law_decrypt_range_is_subrange(
        encryptor@,
        sigma.spec_bytes(),
        base_nonce@,
        whole@,
        disk@,
        offset as int,
        length as int,
    );
}

/// Frames that are the same on both disks open to the same.
proof fn same_span(
    key: Seq<u8>,
    aad: Seq<u8>,
    base_nonce: Seq<u8>,
    size: int,
    disk: Seq<u8>,
    other: Seq<u8>,
    start: int,
    end: int,
    k: int,
    last: int,
)
    requires
        0 <= start <= k * 65552,
        0 <= k,
        k <= last + 1,
        0 <= last,
        last * 65536 < size,
        end == last * 65552 + 16 + super::aead::frame_len(size, last),
        end <= disk.len(),
        end <= other.len(),
        disk.subrange(start, end) == other.subrange(start, end),
    ensures
        super::aead::span_opened(key, aad, base_nonce, size, disk, k, last)
            == super::aead::span_opened(key, aad, base_nonce, size, other, k, last),
    decreases last + 1 - k,
{
    if k <= last {
        same_span(key, aad, base_nonce, size, disk, other, start, end, k + 1, last);
        let a = k * 65552;
        let b = a + 16 + super::aead::frame_len(size, k);
        assert(b <= end);
        assert(disk.subrange(a, b) =~= disk.subrange(start, end).subrange(a - start, b - start));
        assert(other.subrange(a, b) =~= other.subrange(start, end).subrange(a - start, b - start));
    }
}

/// Reading a range looks at nothing but the frames that it overlaps: two disks that
/// hold the same bytes there give the same, whatever else they hold.
pub proof fn law_range_reads_its_frames_only(
    encryptor: &BlobEncryptor,
    sigma: &str,
    base_nonce: &[u8; 8],
    plaintext_size: u64,
    offset: u64,
    length: u64,
    disk: &[u8],
    range: Result<Vec<u8>, CryptoError>,
    other: &[u8],
    other_range: Result<Vec<u8>, CryptoError>,
    start: int,
    end: int,
)
    requires
        call_ensures(
            BlobEncryptor::decrypt_range,
            (encryptor, sigma, disk, base_nonce, plaintext_size, offset, length),
            range,
        ),
        call_ensures(
            BlobEncryptor::decrypt_range,
            (encryptor, sigma, other, base_nonce, plaintext_size, offset, length),
            other_range,
        ),
        offset < plaintext_size,
        0 < length <= plaintext_size - offset,
        0 <= start <= offset as int / 65536 * 65552,
        end == (offset + length - 1) / 65536 * 65552 + 16 + super::aead::frame_len(
            plaintext_size as int,
            (offset + length - 1) / 65536,
        ),
        end <= disk@.len(),
        end <= other@.len(),
        disk@.subrange(start, end) == other@.subrange(start, end),
    ensures
        range is Ok <==> other_range is Ok,
        range matches Ok(q) ==> other_range matches Ok(r) && q@ == r@,
{
    let size = plaintext_size as int;
    let first = offset as int / 65536;
    let last = (offset + length - 1) / 65536;
    assert(super::aead::range_len(size, offset as int, length as int) == length);
    same_span(
        encryptor@,
        sigma.spec_bytes(),
        base_nonce@,
        size,
        disk@,
        other@,
        start,
        end,
        first,
        last,
    );
}

/// A span with a frame that does not open does not open.
proof fn span_refused(
    key: Seq<u8>,
    aad: Seq<u8>,
    base_nonce: Seq<u8>,
    size: int,
    disk: Seq<u8>,
    k: int,
    bad: int,
    last: int,
)
    requires
        k <= bad <= last,
        super::aead::frame_at(key, aad, base_nonce, size, disk, bad) is Err,
    ensures
        super::aead::span_opened(key, aad, base_nonce, size, disk, k, last) is Err,
    decreases last + 1 - k,
{
    if k < bad {
        span_refused(key, aad, base_nonce, size, disk, k + 1, bad, last);
    }
}

/// A range that overlaps a frame which is not on disk as a whole, or which the cipher
/// does not open, is refused; a range of no byte is empty.
pub proof fn law_range_needs_its_frames(
    encryptor: &BlobEncryptor,
    sigma: &str,
    disk: &[u8],
    base_nonce: &[u8; 8],
    plaintext_size: u64,
    offset: u64,
    length: u64,
    k: int,
    nonce: Seq<u8>,
    range: Result<Vec<u8>, CryptoError>,
)
    requires
        call_ensures(
            BlobEncryptor::decrypt_range,
            (encryptor, sigma, disk, base_nonce, plaintext_size, offset, length),
            range,
        ),
        nonce_spells(nonce, base_nonce@, k % 0x1_0000_0000),
    ensures
        offset >= plaintext_size || length == 0 ==> (range matches Ok(q) && q@.len() == 0),
        offset < plaintext_size && 0 < length && offset as int / 65536 <= k && k * 65536
            < plaintext_size && k * 65536 < offset + length ==> {
            let frame = frame_bytes(disk@, plaintext_size as int, k);
            let len = super::aead::frame_len(plaintext_size as int, k);
            &&& k * 65552 + 16 + len > disk@.len() ==> range is Err
            &&& k * 65552 + 16 + len <= disk@.len() && super::aead_backend::aes256gcm_open(
                encryptor@,
                nonce,
                sigma.spec_bytes(),
                frame.skip(16),
                frame.take(16),
            ) is None ==> range is Err
        },
{
    let size = plaintext_size as int;
    let taken = super::aead::range_len(size, offset as int, length as int);
    if offset < plaintext_size && 0 < length && offset as int / 65536 <= k && k * 65536
        < plaintext_size && k * 65536 < offset + length {
        let len = super::aead::frame_len(size, k);
        let last = (offset + taken - 1) / 65536;
        assert(k <= last);
        one_nonce(nonce, base_nonce@, super::aead::index_of(k));
        let frame = frame_bytes(disk@, size, k);
        if k * 65552 + 16 + len <= disk@.len() {
            assert(frame =~= disk@.subrange(k * 65552, k * 65552 + 16 + len));
            assert(frame.skip(16) =~= frame.subrange(16, frame.len() as int));
            assert(frame.take(16) =~= frame.subrange(0, 16));
        }
        if super::aead::frame_at(
            encryptor@,
            sigma.spec_bytes(),
            base_nonce@,
            size,
            disk@,
            k,
        ) is Err {
            span_refused(
                encryptor@,
                sigma.spec_bytes(),
                base_nonce@,
                size,
                disk@,
                offset as int / 65536,
                k,
                last,
            );
        }
    }
}

/// One step of a stream takes its chunk as the next frame: it counts the frame and
/// its bytes, ends behind a chunk that is not full, and writes the chunk sealed by
/// the cipher under all of the associated data. An empty chunk behind a frame ends
/// the stream and writes nothing.
pub proof fn law_stream_takes_a_frame(
    key: Seq<u8>,
    aad: Seq<u8>,
    before: FrameStream,
    chunk: Seq<u8>,
    next: FrameStream,
    written: Seq<u8>,
    nonce: Seq<u8>,
)
    requires
        super::aead::stream_step(key, aad, before, chunk, next, written),
        nonce_spells(nonce, before.base_nonce@, before.frames as int % 0x1_0000_0000),
    ensures
        next.base_nonce == before.base_nonce,
        next.finished <==> chunk.len() < 65536,
        next.plaintext_size == before.plaintext_size + chunk.len(),
        chunk.len() == 0 && before.frames > 0 ==> written.len() == 0 && next.frames
            == before.frames,
        chunk.len() > 0 || before.frames == 0 ==> {
            &&& next.frames == before.frames + 1
            &&& sealed_by_cipher(key, nonce, aad, chunk, written)
        },
{
    one_nonce(nonce, before.base_nonce@, super::aead::index_of(before.frames as int));
    if chunk.len() > 0 || before.frames == 0 {
        assert(written.skip(16) =~= written.subrange(16, written.len() as int));
        assert(written.take(16) =~= written.subrange(0, 16));
    }
}

/// What a whole run of a stream wrote decrypts as any encrypted blob does: each frame
/// is its piece of the plaintext, sealed by the cipher, and there is one for each
/// 65536 bytes begun.
pub proof fn law_streamed_frames(
    key: Seq<u8>,
    aad: Seq<u8>,
    plaintext: Seq<u8>,
    streams: Seq<FrameStream>,
    pieces: Seq<Seq<u8>>,
    k: int,
    nonce: Seq<u8>,
)
    requires
        super::aead::streamed(key, aad, plaintext, streams, pieces),
        streams.last().finished,
        0 <= k < frames_taken(plaintext.len() as int),
        nonce_spells(nonce, streams[0].base_nonce@, k % 0x1_0000_0000),
    ensures
        sealed_by_cipher(
            key,
            nonce,
            aad,
            piece_of(plaintext, k),
            frame_bytes(crate::parts::in_a_row(pieces), plaintext.len() as int, k),
        ),
        crate::parts::in_a_row(pieces).len() == plaintext.len() + 16 * frames_taken(
            plaintext.len() as int,
        ),
        streams.last().plaintext_size == plaintext.len(),
        streams.last().base_nonce == streams[0].base_nonce,
{
    let written = crate::parts::in_a_row(pieces);
    super::aead::law_streamed_blob(key, aad, plaintext, streams, pieces);
    super::aead::law_streamed_length(key, aad, plaintext, streams, pieces);
    frames_are_sealed(key, aad, streams[0].base_nonce@, plaintext, written, k, nonce);
}

/// An encryptor is made exactly of 32 bytes, which are its key, and a failed
/// derivation stays the error that it was.
pub proof fn law_encryptor_key(
    derived: Result<Vec<u8>, CryptoError>,
    encryptor: Result<BlobEncryptor, CryptoError>,
)
    requires
        call_ensures(BlobEncryptor::from_derived, (derived,), encryptor),
    ensures
        encryptor is Ok <==> (derived matches Ok(bytes) && bytes@.len() == 32),
        encryptor matches Ok(e) ==> e@ == derived->Ok_0@,
        derived matches Err(d) ==> encryptor matches Err(e) && e@ == d@,
        derived matches Ok(bytes) && bytes@.len() != 32 ==> encryptor matches Err(
            CryptoError::InvalidKey,
        ),
{
}

/// A reader has the key of the encryptor that it was cloned from.
pub proof fn law_reader_has_the_key(
    encryptor: &BlobEncryptor,
    reader: Result<BlobEncryptor, CryptoError>,
)
    requires
        call_ensures(BlobEncryptor::clone_for_reader, (encryptor,), reader),
    ensures
        reader matches Ok(r) && r@ == encryptor@,
{
}

/// A plaintext is accepted, as it is, exactly where it has the size expected; the
/// refusal names both sizes.
pub proof fn law_size_is_judged(
    plaintext: Vec<u8>,
    plaintext_size: u64,
    judged: Result<Vec<u8>, CryptoError>,
)
    requires
        call_ensures(judge_size, (plaintext, plaintext_size), judged),
    ensures
        judged is Ok <==> plaintext@.len() == plaintext_size,
        judged matches Ok(p) ==> p@ == plaintext@,
        judged matches Err(e) ==> e matches CryptoError::SigningFailed(text) && text@
            == "decrypted "@ + crate::text::decimal(plaintext@.len()) + " bytes but expected "@
            + crate::text::decimal(plaintext_size as nat),
{
}

/// What the cipher opened is the plaintext of a frame, as it is; where it opened
/// nothing the refusal names the frame and the reason.
pub proof fn law_frame_is_judged(
    frame_index: u32,
    opened: Result<Vec<u8>, AeadError>,
    judged: Result<Vec<u8>, CryptoError>,
)
    requires
        call_ensures(judge_frame, (frame_index, opened), judged),
    ensures
        judged is Ok <==> opened is Ok,
        judged matches Ok(p) ==> p@ == opened->Ok_0@,
        opened matches Err(e) ==> judged matches Err(CryptoError::SigningFailed(text)) && text@
            == "frame "@ + crate::text::decimal(frame_index as nat) + " decrypt: "@ + match e {
            AeadError::InvalidLength => "invalid length"@,
            AeadError::TooLong => "input too long"@,
            AeadError::AuthFailed => "authentication failed"@,
        },
{
}

/// A range that reaches past the disk is refused with the first frame that is not
/// there as a whole, where it would stand, how long it is, and how long the disk is.
pub proof fn law_range_past_the_disk(
    encryptor: &BlobEncryptor,
    sigma: &str,
    disk: &[u8],
    base_nonce: &[u8; 8],
    plaintext_size: u64,
    offset: u64,
    length: u64,
    len: int,
    range: Result<Vec<u8>, CryptoError>,
)
    requires
        call_ensures(
            BlobEncryptor::decrypt_range,
            (encryptor, sigma, disk, base_nonce, plaintext_size, offset, length),
            range,
        ),
        offset < plaintext_size,
        0 < length,
        len == if (offset / 65536 + 1) * 65536 <= plaintext_size {
            65536
        } else {
            plaintext_size - offset / 65536 * 65536
        },
        offset / 65536 * 65552 + 16 + len > disk@.len(),
    ensures
        range matches Err(CryptoError::SigningFailed(text)) && text@ == "frame "@
            + crate::text::decimal((offset / 65536) as nat) + " beyond disk (offset="@
            + crate::text::decimal((offset / 65536 * 65552) as nat) + ", len="@
            + crate::text::decimal((16 + len) as nat) + ", total="@ + crate::text::decimal(
            disk@.len(),
        ) + ")"@,
{
    let taken = super::aead::range_len(plaintext_size as int, offset as int, length as int);
    let k = offset as int / 65536;
    let last = (offset + taken - 1) / 65536;
    assert(k <= last);
    assert(len == super::aead::frame_len(plaintext_size as int, k));
}

/// Where the bytes of a frame stand in the span of frames that it is opened with.
proof fn span_bytes(
    key: Seq<u8>,
    aad: Seq<u8>,
    base_nonce: Seq<u8>,
    size: int,
    disk: Seq<u8>,
    first: int,
    last: int,
    k: int,
    i: int,
)
    requires
        super::aead::span_opened(key, aad, base_nonce, size, disk, first, last) is Ok,
        super::aead::frames_open_full(key, aad, base_nonce, size, disk, first, last),
        0 <= first <= k <= last,
        last * 65536 < size,
        0 <= i < super::aead::frame_len(size, k),
    ensures
        ({
            let span = super::aead::span_opened(key, aad, base_nonce, size, disk, first, last);
            let opened = super::aead::frame_at(key, aad, base_nonce, size, disk, k);
            &&& span->Ok_0.len() > (k - first) * 65536 + i
            &&& span->Ok_0[(k - first) * 65536 + i] == opened->Ok_0[i]
        }),
    decreases k - first,
{
    let head = super::aead::frame_at(key, aad, base_nonce, size, disk, first);
    assert(head is Ok);
    let rest = super::aead::span_opened(key, aad, base_nonce, size, disk, first + 1, last);
    if first < k {
        span_bytes(key, aad, base_nonce, size, disk, first + 1, last, k, i);
        assert(super::aead::frame_len(size, first) == 65536);
    }
}

/// A byte of a range is the byte at its place in the frame that holds it.
proof fn range_byte(
    key: Seq<u8>,
    aad: Seq<u8>,
    base_nonce: Seq<u8>,
    size: int,
    disk: Seq<u8>,
    offset: int,
    length: int,
    j: int,
)
    requires
        0 <= offset < size,
        0 <= j < super::aead::range_len(size, offset, length),
        super::aead::range_decrypted(key, aad, base_nonce, size, disk, offset, length) is Ok,
        super::aead::frames_open_full(
            key,
            aad,
            base_nonce,
            size,
            disk,
            offset / 65536,
            (offset + super::aead::range_len(size, offset, length) - 1) / 65536,
        ),
    ensures
        ({
            let k = (offset + j) / 65536;
            let opened = super::aead::frame_at(key, aad, base_nonce, size, disk, k);
            &&& opened is Ok
            &&& 0 <= k
            &&& k * 65536 < size
            &&& super::aead::range_decrypted(
                key,
                aad,
                base_nonce,
                size,
                disk,
                offset,
                length,
            )->Ok_0[j] == opened->Ok_0[offset + j - k * 65536]
        }),
{
    let taken = super::aead::range_len(size, offset, length);
    let first = offset / 65536;
    let last = (offset + taken - 1) / 65536;
    let k = (offset + j) / 65536;
    let i = offset + j - k * 65536;
    assert(first <= k <= last);
    assert(0 <= i < super::aead::frame_len(size, k));
    span_bytes(key, aad, base_nonce, size, disk, first, last, k, i);
    span_bytes(
        key,
        aad,
        base_nonce,
        size,
        disk,
        first,
        last,
        last,
        offset + taken - 1 - last * 65536,
    );
    assert(offset - first * 65536 + j == (k - first) * 65536 + i);
    assert(super::aead::frame_at(key, aad, base_nonce, size, disk, k) is Ok);
}

/// A frame that opens where it stands is opened by the cipher.
proof fn frame_by_cipher(
    key: Seq<u8>,
    aad: Seq<u8>,
    base_nonce: Seq<u8>,
    size: int,
    disk: Seq<u8>,
    k: int,
    nonce: Seq<u8>,
)
    requires
        0 <= k,
        k * 65536 < size,
        super::aead::frame_at(key, aad, base_nonce, size, disk, k) is Ok,
        nonce_spells(nonce, base_nonce, k % 0x1_0000_0000),
    ensures
        k * 65552 + frame_bytes(disk, size, k).len() <= disk.len(),
        super::aead_backend::aes256gcm_open(
            key,
            nonce,
            aad,
            frame_bytes(disk, size, k).skip(16),
            frame_bytes(disk, size, k).take(16),
        ) == Some(super::aead::frame_at(key, aad, base_nonce, size, disk, k)->Ok_0),
{
    one_nonce(nonce, base_nonce, super::aead::index_of(k));
    let len = super::aead::frame_len(size, k);
    let frame = frame_bytes(disk, size, k);
    assert(frame =~= disk.subrange(k * 65552, k * 65552 + 16 + len));
    assert(frame.skip(16) =~= frame.subrange(16, frame.len() as int));
    assert(frame.take(16) =~= frame.subrange(0, 16));
}

/// A range that is read has as many bytes as were asked for, or as there are from its
/// offset on. Each of them is the byte at its place in what the cipher opens the frame
/// to that holds it, under all bytes of the content address and the nonce that spells
/// the frame.
pub proof fn law_range_bytes(
    encryptor: &BlobEncryptor,
    sigma: &str,
    disk: &[u8],
    base_nonce: &[u8; 8],
    plaintext_size: u64,
    offset: u64,
    length: u64,
    range: Vec<u8>,
    j: int,
    nonce: Seq<u8>,
)
    requires
        call_ensures(
            BlobEncryptor::decrypt_range,
            (encryptor, sigma, disk, base_nonce, plaintext_size, offset, length),
            Ok::<Vec<u8>, CryptoError>(range),
        ),
        nonce_spells(nonce, base_nonce@, (offset + j) / 65536 % 0x1_0000_0000),
    ensures
        offset >= plaintext_size ==> range@.len() == 0,
        offset < plaintext_size && offset + length <= plaintext_size ==> range@.len() == length,
        offset < plaintext_size && offset + length > plaintext_size ==> range@.len()
            == plaintext_size - offset,
        0 <= j < range@.len() ==> {
            let k = (offset + j) / 65536;
            let frame = frame_bytes(disk@, plaintext_size as int, k);
            &&& k * 65552 + frame.len() <= disk@.len()
            &&& super::aead_backend::aes256gcm_open(
                encryptor@,
                nonce,
                sigma.spec_bytes(),
                frame.skip(16),
                frame.take(16),
            ) matches Some(p) && range@[j] == p[offset + j - k * 65536]
        },
{
    if 0 <= j < range@.len() {
        let size = plaintext_size as int;
        let k = (offset + j) / 65536;
        let aad = sigma.spec_bytes();
        range_byte(
            encryptor@,
            aad,
            base_nonce@,
            size,
            disk@,
            offset as int,
            length as int,
            j,
        );
        frame_by_cipher(encryptor@, aad, base_nonce@, size, disk@, k, nonce);
    }
}

/// The `k`-th frame is on disk as a whole, and the cipher opens it.
pub open spec fn frame_readable(
    key: Seq<u8>,
    base_nonce: Seq<u8>,
    aad: Seq<u8>,
    size: int,
    disk: Seq<u8>,
    k: int,
) -> bool {
    let frame = frame_bytes(disk, size, k);
    &&& k * 65552 + 16 + piece_len(size, k) <= disk.len()
    &&& forall|nonce: Seq<u8>|
        nonce_spells(nonce, base_nonce, k % 0x1_0000_0000)
            ==> #[trigger] super::aead_backend::aes256gcm_open(
            key,
            nonce,
            aad,
            frame.skip(16),
            frame.take(16),
        ) is Some
}

/// How many bytes of the plaintext the `k`-th frame holds.
pub open spec fn piece_len(size: int, k: int) -> int {
    if (k + 1) * 65536 <= size {
        65536
    } else {
        size - k * 65536
    }
}

/// A span of frames that are all readable opens.
proof fn span_readable(
    key: Seq<u8>,
    aad: Seq<u8>,
    base_nonce: Seq<u8>,
    size: int,
    disk: Seq<u8>,
    first: int,
    last: int,
)
    requires
        0 <= first,
        last * 65536 < size,
        base_nonce.len() == 8,
        aad.len() <= MAX_AAD_LEN,
        forall|k: int|
            first <= k <= last ==> #[trigger] frame_readable(key, base_nonce, aad, size, disk, k),
    ensures
        super::aead::span_opened(key, aad, base_nonce, size, disk, first, last) is Ok,
    decreases last + 1 - first,
{
    if first <= last {
        span_readable(key, aad, base_nonce, size, disk, first + 1, last);
        assert(frame_readable(key, base_nonce, aad, size, disk, first));
        let index = super::aead::index_of(first);
        let nonce = super::aead::nonce_of(base_nonce, index);
        one_nonce(nonce, base_nonce, index);
        let len = super::aead::frame_len(size, first);
        assert(len == piece_len(size, first));
        let frame = frame_bytes(disk, size, first);
        assert(frame =~= disk.subrange(first * 65552, first * 65552 + 16 + len));
        assert(frame.skip(16) =~= frame.subrange(16, frame.len() as int));
        assert(frame.take(16) =~= frame.subrange(0, 16));
        assert(super::aead::frame_at(key, aad, base_nonce, size, disk, first) is Ok);
    }
}

/// A range is read where every frame that it overlaps is on disk and opened by the
/// cipher, whatever the other frames are like.
pub proof fn law_readable_range_is_read(
    encryptor: &BlobEncryptor,
    sigma: &str,
    disk: &[u8],
    base_nonce: &[u8; 8],
    plaintext_size: u64,
    offset: u64,
    length: u64,
    range: Result<Vec<u8>, CryptoError>,
)
    requires
        call_ensures(
            BlobEncryptor::decrypt_range,
            (encryptor, sigma, disk, base_nonce, plaintext_size, offset, length),
            range,
        ),
        sigma.spec_bytes().len() <= MAX_AAD_LEN,
        forall|k: int|
            offset as int / 65536 <= k && k * 65536 < plaintext_size && k * 65536 < offset + length
                ==> #[trigger] frame_readable(
                encryptor@,
                base_nonce@,
                sigma.spec_bytes(),
                plaintext_size as int,
                disk@,
                k,
            ),
    ensures
        range is Ok,
{
    let size = plaintext_size as int;
    let taken = super::aead::range_len(size, offset as int, length as int);
    if taken > 0 {
        let first = offset as int / 65536;
        let last = (offset + taken - 1) / 65536;
        span_readable(encryptor@, sigma.spec_bytes(), base_nonce@, size, disk@, first, last);
    }
}

/// One step of a streaming encryption writes its chunk as the next frame, sealed by the
/// cipher under all bytes of the content address and the nonce that spells the frame,
/// and counts it. An empty chunk behind a frame writes nothing. A chunk that is not
/// full is the last. Where it is refused, nothing is counted.
pub proof fn law_streaming_call(
    encryptor: &BlobEncryptor,
    sigma: &str,
    stream: &mut FrameStream,
    chunk: &[u8],
    frame: Result<Vec<u8>, CryptoError>,
    nonce: Seq<u8>,
)
    requires
        call_ensures(
            BlobEncryptor::encrypt_streaming,
            (encryptor, sigma, stream, chunk),
            frame,
        ),
        nonce_spells(nonce, old(stream).base_nonce@, old(stream).frames as int % 0x1_0000_0000),
    ensures
        chunk@.len() == 0 && old(stream).frames > 0 ==> frame is Ok,
        chunk@.len() > 0 || old(stream).frames == 0 ==> (frame is Ok <==> sigma.spec_bytes().len()
            <= 68_719_476_736),
        frame matches Ok(f) ==> {
            let ends = chunk@.len() == 0 && old(stream).frames > 0;
            &&& final(stream).base_nonce == old(stream).base_nonce
            &&& final(stream).plaintext_size == old(stream).plaintext_size + chunk@.len()
            &&& final(stream).finished <==> chunk@.len() < 65536
            &&& ends ==> f@.len() == 0 && final(stream).frames == old(stream).frames
            &&& !ends ==> final(stream).frames == old(stream).frames + 1
            &&& !ends ==> sealed_by_cipher(
                encryptor@,
                nonce,
                sigma.spec_bytes(),
                chunk@,
                f@,
            )
        },
        frame matches Err(e) ==> e is SigningFailed && *final(stream) == *old(stream),
{
    if let Ok(f) = frame {
        law_stream_takes_a_frame(
            encryptor@,
            sigma.spec_bytes(),
            *old(stream),
            chunk@,
            *final(stream),
            f@,
            nonce,
        );
    }
}

/// A stream under a base nonce that was drawn starts with nothing sealed.
pub proof fn law_drawn_stream(
    drawn: Result<[u8; 8], String>,
    stream: Result<FrameStream, CryptoError>,
)
    requires
        call_ensures(FrameStream::from_drawn, (drawn,), stream),
    ensures
        drawn matches Ok(base_nonce) ==> (stream matches Ok(s) && s.base_nonce == base_nonce
            && s.frames == 0 && s.plaintext_size == 0 && !s.finished),
        drawn matches Err(reason) ==> (stream matches Err(CryptoError::KeyGeneration(text)) && text@
            == reason@),
{
}

/// The key of an encryptor for a namespace is the 32 bytes that the key management
/// service derived for blobs of that namespace; an error is that of the derivation.
pub proof fn law_encryptor_key_is_derived<K: super::kms::KeyManagementService + ?Sized>(
    kms: &K,
    namespace: &str,
    encryptor: Result<BlobEncryptor, CryptoError>,
)
    requires
        call_ensures(BlobEncryptor::new::<K>, (kms, namespace), encryptor),
    ensures
        encryptor matches Ok(enc) ==> enc@.len() == 32 && exists|bytes: Vec<u8>|
            bytes@ == enc@ && #[trigger] call_ensures(
                K::derive_subject_key,
                (kms, namespace, "_blob_encryption"),
                Ok::<Vec<u8>, CryptoError>(bytes),
            ),
        encryptor matches Err(e) ==> {
            ||| e is InvalidKey && exists|bytes: Vec<u8>|
                bytes@.len() != 32 && #[trigger] call_ensures(
                    K::derive_subject_key,
                    (kms, namespace, "_blob_encryption"),
                    Ok::<Vec<u8>, CryptoError>(bytes),
                )
            ||| exists|told: CryptoError|
                told@ == e@ && #[trigger] call_ensures(
                    K::derive_subject_key,
                    (kms, namespace, "_blob_encryption"),
                    Err::<Vec<u8>, CryptoError>(told),
                )
        },
{
    let derived = choose|derived: Result<Vec<u8>, CryptoError>| #[trigger]
        call_ensures(K::derive_subject_key, (kms, namespace, "_blob_encryption"), derived)
            && super::aead::encryptor_outcome(encryptor) == super::aead::encryptor_key(derived);
    match derived {
        Ok(bytes) => {
            assert(derived == Ok::<Vec<u8>, CryptoError>(bytes));
        },
        Err(told) => {
            assert(derived == Err::<Vec<u8>, CryptoError>(told));
        },
    }
}

/// The least of the two.
pub open spec fn least(a: int, b: int) -> int {
    if a <= b {
        a
    } else {
        b
    }
}

/// Decrypting a blob opens every byte on disk: each frame up to the end of the disk, an
/// empty one behind the plaintext too, is there as a whole, and the cipher opens it to
/// what the plaintext holds at its place.
pub proof fn law_every_frame_on_disk_is_opened(
    encryptor: &BlobEncryptor,
    sigma: &str,
    disk: &[u8],
    base_nonce: &[u8; 8],
    plaintext_size: u64,
    plaintext: Vec<u8>,
    k: int,
    nonce: Seq<u8>,
)
    requires
        call_ensures(
            BlobEncryptor::decrypt_all,
            (encryptor, sigma, disk, base_nonce, plaintext_size),
            Ok::<Vec<u8>, CryptoError>(plaintext),
        ),
        0 <= k,
        nonce_spells(nonce, base_nonce@, k % 0x1_0000_0000),
    ensures
        plaintext@.len() == plaintext_size,
        ({
            let from = least(k * 65536, plaintext_size as int);
            let to = least((k + 1) * 65536, plaintext_size as int);
            let start = 16 * k + from;
            let end = start + 16 + to - from;
            start < disk@.len() ==> end <= disk@.len() && super::aead_backend::aes256gcm_open(
                encryptor@,
                nonce,
                sigma.spec_bytes(),
                disk@.subrange(start + 16, end),
                disk@.subrange(start, start + 16),
            ) == Some(plaintext@.subrange(from, to))
        }),
{
    let size = plaintext_size as int;
    let aad = sigma.spec_bytes();
    let from = least(k * 65536, size);
    let to = least((k + 1) * 65536, size);
    let start = 16 * k + from;
    let end = start + 16 + to - from;
    if start < disk@.len() {
        let n = choose|n: int| #[trigger]
            super::aead::opens_in(encryptor@, aad, base_nonce@, plaintext@, disk@, n);
        assert(start == super::aead::disk_start(size, k));
        assert(end == super::aead::disk_start(size, k + 1));
        if k >= n {
            disk_grows(size, n, k);
        }
        disk_grows(size, k + 1, n);
        one_nonce(nonce, base_nonce@, super::aead::index_of(k));
        assert(super::aead::frame_opens_at(
            encryptor@,
            aad,
            base_nonce@,
            plaintext@,
            disk@,
            k,
        ));
        let frame = disk@.subrange(start, end);
        assert(frame.subrange(16, frame.len() as int) =~= disk@.subrange(start + 16, end));
        assert(frame.subrange(0, 16) =~= disk@.subrange(start, start + 16));
        assert(plaintext@.subrange(from, to) =~= super::aead::frame_plain(plaintext@, k));
    }
}

/// Frames stand behind each other.
proof fn disk_grows(size: int, i: int, j: int)
    requires
        0 <= size,
        0 <= i <= j,
    ensures
        super::aead::disk_start(size, i) <= super::aead::disk_start(size, j),
{
}

} // verus!
