//! Framed blob encryption.

use kappa_store::crypto::aead::{
    judge_frame, judge_size, BlobEncryptor, FrameStream, FRAME_DISK_SIZE, FRAME_SIZE,
};
use kappa_store::crypto::aead_backend::AeadError;
use kappa_store::crypto::kms::KeyManagementService;
use kappa_store::crypto::CryptoError;
use std::cell::RefCell;

/// Derives keys from a master key and remembers which ones were erased.
struct TestKms {
    master: [u8; 32],
    erased: RefCell<Vec<String>>,
}

impl KeyManagementService for TestKms {
    fn derive_subject_key(&self, namespace: &str, subject: &str) -> Result<Vec<u8>, CryptoError> {
        let name = format!("{namespace}\0{subject}");
        if self.erased.borrow().contains(&name) {
            return Err(CryptoError::InvalidKey);
        }
        Ok(blake3::keyed_hash(&self.master, name.as_bytes()).as_bytes().to_vec())
    }

    fn erase_subject_key(&self, namespace: &str, subject: &str) -> Result<(), CryptoError> {
        self.erased.borrow_mut().push(format!("{namespace}\0{subject}"));
        Ok(())
    }
}

fn test_kms() -> TestKms {
    TestKms { master: [0x42u8; 32], erased: RefCell::new(Vec::new()) }
}

#[test]
fn encrypt_decrypt_roundtrip_small() {
    let kms = test_kms();
    let enc = BlobEncryptor::new(&kms, "test-ns").unwrap();
    let plaintext = b"hello encrypted world";
    let sigma = "sha256:aabbccdd";
    let encrypted = enc.encrypt(sigma, plaintext).unwrap();
    assert_eq!(encrypted.disk_bytes.len(), 16 + plaintext.len());
    let pt = enc.decrypt_all(sigma, &encrypted.disk_bytes, &encrypted.base_nonce, encrypted.plaintext_size).unwrap();
    assert_eq!(pt, plaintext);
}

#[test]
fn encrypt_decrypt_roundtrip_multiframe() {
    let kms = test_kms();
    let enc = BlobEncryptor::new(&kms, "test-ns").unwrap();
    let plaintext: Vec<u8> = (0..FRAME_SIZE * 2 + FRAME_SIZE / 2)
        .map(|i| (i % 251) as u8).collect();
    let sigma = "sha256:multiframe";
    let encrypted = enc.encrypt(sigma, &plaintext).unwrap();
    let expected_disk = 2 * FRAME_DISK_SIZE + 16 + FRAME_SIZE / 2;
    assert_eq!(encrypted.disk_bytes.len(), expected_disk);
    let pt = enc.decrypt_all(sigma, &encrypted.disk_bytes, &encrypted.base_nonce, encrypted.plaintext_size).unwrap();
    assert_eq!(pt, plaintext);
}

#[test]
fn wrong_sigma_fails() {
    let kms = test_kms();
    let enc = BlobEncryptor::new(&kms, "test-ns").unwrap();
    let encrypted = enc.encrypt("sha256:aaa", b"secret").unwrap();
    assert!(enc.decrypt_all("sha256:bbb", &encrypted.disk_bytes, &encrypted.base_nonce, encrypted.plaintext_size).is_err());
}

#[test]
fn nondeterministic_encryption() {
    let kms = test_kms();
    let enc = BlobEncryptor::new(&kms, "test-ns").unwrap();
    let sigma = "sha256:nondet";
    let e1 = enc.encrypt(sigma, b"same content").unwrap();
    let e2 = enc.encrypt(sigma, b"same content").unwrap();
    assert_ne!(e1.base_nonce, e2.base_nonce);
    assert_ne!(e1.disk_bytes, e2.disk_bytes);
    let p1 = enc.decrypt_all(sigma, &e1.disk_bytes, &e1.base_nonce, e1.plaintext_size).unwrap();
    let p2 = enc.decrypt_all(sigma, &e2.disk_bytes, &e2.base_nonce, e2.plaintext_size).unwrap();
    assert_eq!(p1, p2);
}

#[test]
fn tampered_frame_fails() {
    let kms = test_kms();
    let enc = BlobEncryptor::new(&kms, "test-ns").unwrap();
    let sigma = "sha256:tamper";
    let mut encrypted = enc.encrypt(sigma, b"original content here").unwrap();
    encrypted.disk_bytes[16] ^= 0xFF;
    assert!(enc.decrypt_all(sigma, &encrypted.disk_bytes, &encrypted.base_nonce, encrypted.plaintext_size).is_err());
}

#[test]
fn empty_plaintext_roundtrip() {
    let kms = test_kms();
    let enc = BlobEncryptor::new(&kms, "test-ns").unwrap();
    let sigma = "sha256:empty";
    let encrypted = enc.encrypt(sigma, b"").unwrap();
    assert_eq!(encrypted.plaintext_size, 0);
    assert_eq!(encrypted.disk_bytes.len(), 16);
    let pt = enc.decrypt_all(sigma, &encrypted.disk_bytes, &encrypted.base_nonce, encrypted.plaintext_size).unwrap();
    assert!(pt.is_empty());
}

#[test]
fn range_read_within_single_frame() {
    let kms = test_kms();
    let enc = BlobEncryptor::new(&kms, "test-ns").unwrap();
    let plaintext: Vec<u8> = (0..1024).map(|i| (i % 251) as u8).collect();
    let sigma = "sha256:range1";
    let encrypted = enc.encrypt(sigma, &plaintext).unwrap();
    let range = enc.decrypt_range(sigma, &encrypted.disk_bytes, &encrypted.base_nonce, encrypted.plaintext_size, 100, 200).unwrap();
    assert_eq!(range, &plaintext[100..300]);
}

#[test]
fn range_read_spanning_frames() {
    let kms = test_kms();
    let enc = BlobEncryptor::new(&kms, "test-ns").unwrap();
    let plaintext: Vec<u8> = (0..FRAME_SIZE * 3).map(|i| (i % 251) as u8).collect();
    let sigma = "sha256:range_span";
    let encrypted = enc.encrypt(sigma, &plaintext).unwrap();
    let offset = FRAME_SIZE as u64 - 100;
    let length = 200;
    let range = enc.decrypt_range(sigma, &encrypted.disk_bytes, &encrypted.base_nonce, encrypted.plaintext_size, offset, length).unwrap();
    assert_eq!(range.len(), 200);
    assert_eq!(range, &plaintext[offset as usize..(offset + length) as usize]);
}

#[test]
fn range_read_past_end_returns_short() {
    let kms = test_kms();
    let enc = BlobEncryptor::new(&kms, "test-ns").unwrap();
    let plaintext = b"short";
    let sigma = "sha256:range_past";
    let encrypted = enc.encrypt(sigma, plaintext).unwrap();
    let range = enc.decrypt_range(sigma, &encrypted.disk_bytes, &encrypted.base_nonce, encrypted.plaintext_size, 3, 100).unwrap();
    assert_eq!(range, b"rt");
}

#[test]
fn range_read_at_end_returns_empty() {
    let kms = test_kms();
    let enc = BlobEncryptor::new(&kms, "test-ns").unwrap();
    let plaintext = b"hello";
    let sigma = "sha256:range_end";
    let encrypted = enc.encrypt(sigma, plaintext).unwrap();
    let range = enc.decrypt_range(sigma, &encrypted.disk_bytes, &encrypted.base_nonce, encrypted.plaintext_size, 5, 10).unwrap();
    assert!(range.is_empty());
}

#[test]
fn clone_for_reader_produces_working_encryptor() {
    let kms = test_kms();
    let enc = BlobEncryptor::new(&kms, "test-ns").unwrap();
    let sigma = "sha256:clone_test";
    let encrypted = enc.encrypt(sigma, b"clone reader data").unwrap();
    let reader_enc = enc.clone_for_reader().unwrap();
    let pt = reader_enc.decrypt_all(sigma, &encrypted.disk_bytes, &encrypted.base_nonce, encrypted.plaintext_size).unwrap();
    assert_eq!(pt, b"clone reader data");
}

#[test]
fn decrypt_frame_roundtrip() {
    let kms = test_kms();
    let enc = BlobEncryptor::new(&kms, "test-ns").unwrap();
    let sigma = "sha256:single_frame";
    let encrypted = enc.encrypt(sigma, b"frame test").unwrap();
    let pt = enc.decrypt_frame(sigma, &encrypted.base_nonce, 0, &encrypted.disk_bytes).unwrap();
    assert_eq!(pt, b"frame test");
}

#[test]
fn erased_key_prevents_new_encryptor() {
    let kms = test_kms();
    let _enc = BlobEncryptor::new(&kms, "erase-ns").unwrap();
    kms.erase_subject_key("erase-ns", "_blob_encryption").unwrap();
    assert!(BlobEncryptor::new(&kms, "erase-ns").is_err());
}

#[test]
fn exactly_one_frame_boundary() {
    let kms = test_kms();
    let enc = BlobEncryptor::new(&kms, "test-ns").unwrap();
    let plaintext: Vec<u8> = (0..FRAME_SIZE).map(|i| (i % 251) as u8).collect();
    let sigma = "sha256:exact_frame";
    let encrypted = enc.encrypt(sigma, &plaintext).unwrap();
    assert_eq!(encrypted.disk_bytes.len(), FRAME_DISK_SIZE);
    let pt = enc.decrypt_all(sigma, &encrypted.disk_bytes, &encrypted.base_nonce, encrypted.plaintext_size).unwrap();
    assert_eq!(pt, plaintext);
}

#[test]
fn frame_size_plus_one() {
    let kms = test_kms();
    let enc = BlobEncryptor::new(&kms, "test-ns").unwrap();
    let plaintext: Vec<u8> = (0..FRAME_SIZE + 1).map(|i| (i % 251) as u8).collect();
    let sigma = "sha256:frame_plus_one";
    let encrypted = enc.encrypt(sigma, &plaintext).unwrap();
    assert_eq!(encrypted.disk_bytes.len(), FRAME_DISK_SIZE + 16 + 1);
    let pt = enc.decrypt_all(sigma, &encrypted.disk_bytes, &encrypted.base_nonce, encrypted.plaintext_size).unwrap();
    assert_eq!(pt, plaintext);
}

#[test]
fn encrypt_streaming_matches_encrypt() {
    let kms = test_kms();
    let enc = BlobEncryptor::new(&kms, "test-ns").unwrap();
    let plaintext: Vec<u8> = (0..FRAME_SIZE * 3 + 1000)
        .map(|i| (i % 251) as u8).collect();
    let sigma = "sha256:test_streaming_match";

    // In-memory encrypt
    let mem_result = enc.encrypt(sigma, &plaintext).unwrap();

    // Streaming encrypt
    let mut stream = enc.begin_streaming().unwrap();
    let mut ct_buf = Vec::new();
    let mut chunks = plaintext.chunks(FRAME_SIZE);
    while !stream.finished {
        let chunk = chunks.next().unwrap_or(&[]);
        ct_buf.extend(enc.encrypt_streaming(sigma, &mut stream, chunk).unwrap());
    }
    let (stream_nonce, stream_pt_size) = (stream.base_nonce, stream.plaintext_size);

    // Plaintext sizes match
    assert_eq!(mem_result.plaintext_size, stream_pt_size);
    assert_eq!(stream_pt_size, plaintext.len() as u64);

    // Both produce valid ciphertext that decrypts to the same plaintext
    let dec_mem = enc.decrypt_all(
        sigma, &mem_result.disk_bytes, &mem_result.base_nonce,
        mem_result.plaintext_size,
    ).unwrap();
    let dec_stream = enc.decrypt_all(
        sigma, &ct_buf, &stream_nonce, stream_pt_size,
    ).unwrap();
    assert_eq!(dec_mem, plaintext);
    assert_eq!(dec_stream, plaintext);

    // Same frame count
    let mem_frames = (mem_result.disk_bytes.len() + FRAME_DISK_SIZE - 1) / FRAME_DISK_SIZE;
    let stream_frames = (ct_buf.len() + FRAME_DISK_SIZE - 1) / FRAME_DISK_SIZE;
    assert_eq!(mem_frames, stream_frames);

    // Range read across frame boundary on streaming-encrypted output
    let mid_frame_offset = FRAME_SIZE as u64 + 100;
    let range_len = FRAME_SIZE as u64;
    let range_result = enc.decrypt_range(
        sigma, &ct_buf, &stream_nonce, stream_pt_size,
        mid_frame_offset, range_len,
    ).unwrap();
    assert_eq!(
        range_result,
        &plaintext[mid_frame_offset as usize..(mid_frame_offset + range_len) as usize],
    );

    // Partial last frame read
    let last_frame_start = (FRAME_SIZE * 3) as u64;
    let remaining = plaintext.len() as u64 - last_frame_start;
    let last_result = enc.decrypt_range(
        sigma, &ct_buf, &stream_nonce, stream_pt_size,
        last_frame_start, remaining,
    ).unwrap();
    assert_eq!(last_result, &plaintext[last_frame_start as usize..]);
}

fn fixed_encryptor() -> BlobEncryptor {
    BlobEncryptor::from_derived(Ok(vec![0x11u8; 32])).unwrap()
}

fn message(result: Result<Vec<u8>, CryptoError>) -> String {
    result.unwrap_err().message()
}

#[test]
fn key_material_of_another_length_is_refused() {
    let short = BlobEncryptor::from_derived(Ok(vec![0u8; 31]));
    assert!(matches!(short, Err(CryptoError::InvalidKey)));
    let failed = BlobEncryptor::from_derived(Err(CryptoError::KeyGeneration("x".into())));
    assert!(matches!(failed, Err(CryptoError::KeyGeneration(t)) if t == "x"));
}

#[test]
fn frame_nonce_is_base_then_index() {
    let nonce = BlobEncryptor::frame_nonce(&[1, 2, 3, 4, 5, 6, 7, 8], 0x0a0b0c0d);
    assert_eq!(nonce, [1, 2, 3, 4, 5, 6, 7, 8, 0x0a, 0x0b, 0x0c, 0x0d]);
    assert_ne!(
        BlobEncryptor::frame_nonce(&[0; 8], 1),
        BlobEncryptor::frame_nonce(&[0; 8], 256)
    );
}

#[test]
fn frame_sizes_add_up() {
    let size = (FRAME_SIZE * 2 + 5) as u64;
    assert_eq!(BlobEncryptor::frame_plaintext_size(size, 0), FRAME_SIZE);
    assert_eq!(BlobEncryptor::frame_plaintext_size(size, 1), FRAME_SIZE);
    assert_eq!(BlobEncryptor::frame_plaintext_size(size, 2), 5);
    assert_eq!(BlobEncryptor::frame_plaintext_size(size, 3), 0);
    assert_eq!(BlobEncryptor::frame_plaintext_size(0, 0), 0);
    assert_eq!(BlobEncryptor::frame_plaintext_size(u64::MAX, u32::MAX), FRAME_SIZE);
}

#[test]
fn short_frame_is_refused() {
    let enc = fixed_encryptor();
    assert_eq!(
        message(enc.decrypt_frame("s", &[0; 8], 0, &[0u8; 15])),
        "signing failed: frame too short for tag"
    );
    assert_eq!(
        message(enc.decrypt_frame("s", &[0; 8], 7, &[0u8; 16])),
        "signing failed: frame 7 decrypt: authentication failed"
    );
}

#[test]
fn outcomes_are_judged() {
    assert_eq!(judge_frame(3, Ok(vec![1])).unwrap(), [1]);
    assert_eq!(
        message(judge_frame(12, Err(AeadError::AuthFailed))),
        "signing failed: frame 12 decrypt: authentication failed"
    );
    assert_eq!(judge_size(vec![1, 2], 2).unwrap(), [1, 2]);
    assert_eq!(message(judge_size(vec![1, 2], 30)), "signing failed: decrypted 2 bytes but expected 30");
}

#[test]
fn an_altered_blob_does_not_decrypt_to_what_it_held() {
    let enc = fixed_encryptor();
    let blob = enc.encrypt_with_nonce("s", b"content", [2; 8]).unwrap();
    for i in 0..blob.disk_bytes.len() {
        let mut altered = blob.disk_bytes.clone();
        altered[i] ^= 1;
        assert!(enc.decrypt_all("s", &altered, &blob.base_nonce, 7).is_err());
    }
}

#[test]
fn truncated_blob_is_refused() {
    let enc = fixed_encryptor();
    let blob = enc.encrypt_with_nonce("s", b"hello", [9; 8]).unwrap();
    let cut = &blob.disk_bytes[..blob.disk_bytes.len() - 1];
    assert_eq!(
        message(enc.decrypt_all("s", cut, &blob.base_nonce, 5)),
        "signing failed: truncated frame"
    );
    assert_eq!(
        message(enc.decrypt_all("s", &[], &blob.base_nonce, 5)),
        "signing failed: decrypted 0 bytes but expected 5"
    );
    assert_eq!(
        message(enc.decrypt_range("s", cut, &blob.base_nonce, 5, 1, 2)),
        "signing failed: frame 0 beyond disk (offset=0, len=21, total=20)"
    );
}

#[test]
fn range_far_beyond_the_disk_is_refused() {
    let enc = fixed_encryptor();
    let step = FRAME_SIZE as u128 + 16;
    for frame in [1u64 << 32, (1 << 32) + 7, (1 << 48) - 2] {
        let offset = frame * FRAME_SIZE as u64 + 5;
        let start = frame as u128 * step;
        assert_eq!(
            message(enc.decrypt_range("s", &[0; 20], &[9; 8], u64::MAX, offset, u64::MAX)),
            format!(
                "signing failed: frame {frame} beyond disk (offset={start}, len={step}, total=20)"
            )
        );
    }
}

#[test]
fn range_of_nothing_is_empty() {
    let enc = fixed_encryptor();
    assert_eq!(enc.decrypt_range("s", &[], &[0; 8], 5, 2, 0).unwrap(), Vec::<u8>::new());
    assert_eq!(enc.decrypt_range("s", &[], &[0; 8], 0, 0, 9).unwrap(), Vec::<u8>::new());
}

#[test]
fn ranges_are_parts_of_the_whole() {
    let enc = fixed_encryptor();
    let plaintext: Vec<u8> = (0..FRAME_SIZE * 2 + 77).map(|i| (i % 241) as u8).collect();
    let blob = enc.encrypt_with_nonce("s", &plaintext, [5; 8]).unwrap();
    let size = plaintext.len();
    for (offset, length) in [(0, size), (1, 1), (FRAME_SIZE - 1, 2), (FRAME_SIZE, FRAME_SIZE), (size - 1, 9)] {
        let got = enc
            .decrypt_range("s", &blob.disk_bytes, &blob.base_nonce, size as u64, offset as u64, length as u64)
            .unwrap();
        let end = if offset + length < size { offset + length } else { size };
        assert_eq!(got, &plaintext[offset..end]);
    }
}

#[test]
fn a_stream_writes_what_encryption_writes() {
    let enc = fixed_encryptor();
    for size in [0, 1, FRAME_SIZE - 1, FRAME_SIZE, FRAME_SIZE + 1, FRAME_SIZE * 2] {
        let plaintext: Vec<u8> = (0..size).map(|i| (i % 239) as u8).collect();
        let blob = enc.encrypt_with_nonce("s", &plaintext, [3; 8]).unwrap();
        let mut stream = FrameStream::new([3; 8]);
        let mut written = Vec::new();
        let mut chunks = plaintext.chunks(FRAME_SIZE);
        while !stream.finished {
            let chunk = chunks.next().unwrap_or(&[]);
            written.extend(enc.encrypt_streaming("s", &mut stream, chunk).unwrap());
        }
        assert_eq!(written, blob.disk_bytes);
        assert_eq!(stream.plaintext_size, blob.plaintext_size);
    }
}

#[test]
fn a_stream_starts_from_the_nonce_that_was_drawn() {
    let stream = FrameStream::from_drawn(Ok([7; 8])).unwrap();
    assert_eq!(stream.base_nonce, [7; 8]);
    assert_eq!((stream.frames, stream.plaintext_size, stream.finished), (0, 0, false));
    let failed = FrameStream::from_drawn(Err("no entropy".to_string()));
    assert!(matches!(failed, Err(CryptoError::KeyGeneration(t)) if t == "no entropy"));
    let enc = fixed_encryptor();
    let (a, b) = (enc.begin_streaming().unwrap(), enc.begin_streaming().unwrap());
    assert_ne!(a.base_nonce, b.base_nonce);
}

#[test]
fn disk_size_is_plaintext_and_a_tag_per_frame() {
    let enc = fixed_encryptor();
    for (size, frames) in [(0, 1), (1, 1), (FRAME_SIZE, 1), (FRAME_SIZE + 1, 2), (FRAME_SIZE * 2, 2)] {
        let blob = enc.encrypt_with_nonce("s", &vec![0u8; size], [1; 8]).unwrap();
        assert_eq!(blob.disk_bytes.len(), size + 16 * frames);
        assert_eq!(blob.base_nonce, [1; 8]);
        assert_eq!(blob.plaintext_size, size as u64);
    }
}

#[test]
fn a_blob_with_an_altered_tag_is_refused() {
    let enc = fixed_encryptor();
    let plaintext = vec![7u8; FRAME_SIZE + 9];
    let blob = enc.encrypt_with_nonce("s", &plaintext, [4; 8]).unwrap();
    for (frame, at) in [(0, 0), (0, 15), (1, FRAME_DISK_SIZE), (1, FRAME_DISK_SIZE + 7)] {
        let mut altered = blob.disk_bytes.clone();
        altered[at] ^= 1;
        assert_eq!(
            message(enc.decrypt_all("s", &altered, &blob.base_nonce, blob.plaintext_size)),
            format!("signing failed: frame {frame} decrypt: authentication failed")
        );
    }
}
