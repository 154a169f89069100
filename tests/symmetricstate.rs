use chacha20poly1305::aead::{Aead, KeyInit, Payload};
use chacha20poly1305::{ChaCha20Poly1305, Key, Nonce};
use hkdf::Hkdf;
use sha2::{Digest, Sha256, Sha512};
use symmetric_state::chachapoly::ChaChaPoly;
use symmetric_state::constants::{CIPHERKEYLEN, TAGLEN};
use symmetric_state::hashes::{HashSha256, HashSha512};
use symmetric_state::symmetricstate::{SymmetricState, SymmetricStateType};
use symmetric_state::types::Cipher;

type State32 = SymmetricState<ChaChaPoly, HashSha256>;
type State64 = SymmetricState<ChaChaPoly, HashSha512>;

fn state32() -> State32 {
    SymmetricState::new(ChaChaPoly::new(), HashSha256::new())
}

fn state64() -> State64 {
    SymmetricState::new(ChaChaPoly::new(), HashSha512::new())
}

fn sha256(data: &[u8]) -> Vec<u8> {
    Sha256::digest(data).to_vec()
}

/// Output `i` (0, 1 or 2) of HKDF-SHA-256 with salt `ck`.
fn hkdf32(ck: &[u8], ikm: &[u8], i: usize) -> Vec<u8> {
    let mut okm = [0u8; 96];
    Hkdf::<Sha256>::new(Some(ck), ikm).expand(&[], &mut okm).unwrap();
    okm[32 * i..32 * i + 32].to_vec()
}

fn hkdf64(ck: &[u8], ikm: &[u8], i: usize) -> Vec<u8> {
    let mut okm = [0u8; 192];
    Hkdf::<Sha512>::new(Some(ck), ikm).expand(&[], &mut okm).unwrap();
    okm[64 * i..64 * i + 64].to_vec()
}

fn seal(key: &[u8], n: u64, ad: &[u8], plaintext: &[u8]) -> Vec<u8> {
    let mut nonce = [0u8; 12];
    nonce[4..].copy_from_slice(&n.to_le_bytes());
    ChaCha20Poly1305::new(Key::from_slice(key))
        .encrypt(Nonce::from_slice(&nonce), Payload { msg: plaintext, aad: ad })
        .unwrap()
}

const NAME: &str = "Noise_XX_25519_ChaChaPoly_BLAKE2s";

fn concat(a: &[u8], b: &[u8]) -> Vec<u8> {
    let mut v = a.to_vec();
    v.extend_from_slice(b);
    v
}

#[test]
fn names_come_from_the_capabilities() {
    let s = state32();
    assert_eq!(s.cipher_name(), "ChaChaPoly");
    assert_eq!(s.hash_name(), "SHA256");
    assert_eq!(state64().hash_name(), "SHA512");
}

#[test]
fn long_identifier_is_hashed() {
    let name = "Noise_NN_25519_ChaChaPoly_SHA256xy";
    assert_eq!(name.len(), 34);
    let mut s = state32();
    s.initialize(name);
    assert_eq!(s.handshake_hash().to_vec(), sha256(name.as_bytes()));
    assert_ne!(&s.handshake_hash()[..32], &name.as_bytes()[..32]);
}

#[test]
fn short_identifier_is_zero_padded() {
    let name = "Noise_NN_short_name_";
    assert_eq!(name.len(), 20);
    let mut s = state32();
    s.initialize(name);
    let mut expected = name.as_bytes().to_vec();
    expected.extend_from_slice(&[0u8; 12]);
    assert_eq!(s.handshake_hash().to_vec(), expected);
}

#[test]
fn identifier_of_digest_length_is_kept_verbatim() {
    let name = "Noise_NN_25519_ChaChaPoly_SHA256";
    assert_eq!(name.len(), 32);
    let mut s = state32();
    s.initialize(name);
    assert_eq!(s.handshake_hash(), name.as_bytes());
}

#[test]
fn empty_identifier_gives_zero_hash() {
    let mut s = state64();
    s.initialize("");
    assert_eq!(s.handshake_hash().to_vec(), vec![0u8; 64]);
}

#[test]
fn initialize_is_deterministic() {
    let mut a = state32();
    let mut other = ChaChaPoly::new();
    other.set(&[7u8; CIPHERKEYLEN], 9);
    let mut b = SymmetricState::new(other, HashSha256::new());
    b.mix_hash(b"earlier history");
    a.initialize(NAME);
    b.initialize(NAME);
    assert_eq!(a.handshake_hash(), b.handshake_hash());
    assert_eq!(a.export(), b.export());
    a.mix_key(b"dh output");
    b.mix_key(b"dh output");
    let mut ca = [0u8; 64];
    let mut cb = [0u8; 64];
    let na = a.encrypt_and_mix_hash(b"payload", &mut ca);
    let nb = b.encrypt_and_mix_hash(b"payload", &mut cb);
    assert_eq!(na, nb);
    assert_eq!(ca[..na], cb[..nb]);
    assert_eq!(a.handshake_hash(), b.handshake_hash());
}

#[test]
fn mix_hash_appends_then_rehashes() {
    let mut s = state32();
    s.initialize(NAME);
    let h0 = s.handshake_hash().to_vec();
    s.mix_hash(b"abc");
    assert_eq!(s.handshake_hash().to_vec(), sha256(&concat(&h0, b"abc")));
}

#[test]
fn mix_hash_order_matters() {
    let mut a = state32();
    let mut b = state32();
    a.initialize(NAME);
    b.initialize(NAME);
    a.mix_hash(b"first");
    a.mix_hash(b"second");
    b.mix_hash(b"second");
    b.mix_hash(b"first");
    assert_ne!(a.handshake_hash(), b.handshake_hash());
}

#[test]
fn has_key_is_monotonic() {
    let mut s = state32();
    s.initialize(NAME);
    assert!(!s.has_key());
    s.mix_hash(b"e");
    assert!(!s.has_key());
    s.mix_key(b"ee");
    assert!(s.has_key());
    s.mix_hash(b"more");
    assert!(s.has_key());
    s.mix_key_and_hash(b"psk");
    assert!(s.has_key());
    let mut out = [0u8; 64];
    let n = s.encrypt_and_mix_hash(b"x", &mut out);
    assert_eq!(n, 1 + TAGLEN);
    assert!(s.has_key());
    let mut sink = [0u8; 64];
    assert_eq!(s.decrypt_and_mix_hash(&[1u8; 20], &mut sink), Err(()));
    assert!(s.has_key());
    let mut c1 = ChaChaPoly::new();
    let mut c2 = ChaChaPoly::new();
    s.split(&mut c1, &mut c2);
    s.export();
    assert!(s.has_key());
    s.initialize(NAME);
    assert!(!s.has_key());
}

#[test]
fn mix_key_and_hash_leaves_has_key_unset() {
    let mut s = state32();
    s.initialize(NAME);
    s.mix_key_and_hash(b"psk");
    assert!(!s.has_key());
    let mut out = [0u8; 8];
    assert_eq!(s.encrypt_and_mix_hash(b"plain", &mut out), 5);
    assert_eq!(&out[..5], b"plain");
}

#[test]
fn mix_key_and_hash_mixes_second_output() {
    let mut s = state32();
    s.initialize(NAME);
    let h0 = s.handshake_hash().to_vec();
    s.mix_key_and_hash(b"psk");
    let ck = h0.clone();
    let temp_h = hkdf32(&ck, b"psk", 1);
    assert_eq!(s.handshake_hash().to_vec(), sha256(&concat(&h0, &temp_h)));
}

#[test]
fn mix_key_installs_second_hkdf_output() {
    let mut s = state32();
    s.initialize(NAME);
    let h0 = s.handshake_hash().to_vec();
    s.mix_key(b"ikm");
    let key = hkdf32(&h0, b"ikm", 1);
    let mut out = [0u8; 64];
    let n = s.encrypt_and_mix_hash(b"hello", &mut out);
    assert_eq!(out[..n].to_vec(), seal(&key[..CIPHERKEYLEN], 0, &h0, b"hello"));
    let expected_h = sha256(&concat(&h0, &out[..n]));
    assert_eq!(s.handshake_hash().to_vec(), expected_h);
}

#[test]
fn unkeyed_encrypt_passes_plaintext_through() {
    let mut s = state32();
    s.initialize(NAME);
    let h0 = s.handshake_hash().to_vec();
    let mut out = [0u8; 10];
    let n = s.encrypt_and_mix_hash(b"hello", &mut out);
    assert_eq!(n, 5);
    assert_eq!(&out[..5], b"hello");
    assert_eq!(s.handshake_hash().to_vec(), sha256(&concat(&h0, b"hello")));
}

fn pair() -> (State32, State32) {
    let mut a = state32();
    let mut b = state32();
    for s in [&mut a, &mut b] {
        s.initialize(NAME);
        s.mix_hash(b"prologue");
        s.mix_key(b"shared secret");
        s.mix_hash(b"e");
    }
    (a, b)
}

#[test]
fn keyed_round_trip() {
    let (mut a, mut b) = pair();
    let mut ct = [0u8; 64];
    let n = a.encrypt_and_mix_hash(b"attack at dawn", &mut ct);
    assert_eq!(n, 14 + TAGLEN);
    let mut pt = [0u8; 64];
    let m = b.decrypt_and_mix_hash(&ct[..n], &mut pt);
    assert_eq!(m, Ok(14));
    assert_eq!(&pt[..14], b"attack at dawn");
    assert_eq!(a.handshake_hash(), b.handshake_hash());
    assert_eq!(a.export(), b.export());
    let n2 = b.encrypt_and_mix_hash(b"reply", &mut ct);
    assert_eq!(a.decrypt_and_mix_hash(&ct[..n2], &mut pt), Ok(5));
    assert_eq!(&pt[..5], b"reply");
}

#[test]
fn unkeyed_round_trip() {
    let mut a = state32();
    let mut b = state32();
    a.initialize(NAME);
    b.initialize(NAME);
    let mut ct = [0u8; 16];
    let n = a.encrypt_and_mix_hash(b"clear", &mut ct);
    let mut pt = [0u8; 5];
    assert_eq!(b.decrypt_and_mix_hash(&ct[..n], &mut pt), Ok(5));
    assert_eq!(&pt, b"clear");
    assert_eq!(a.handshake_hash(), b.handshake_hash());
}

#[test]
fn tampered_ciphertext_is_rejected() {
    let (mut a, b0) = pair();
    let mut ct = [0u8; 64];
    let n = a.encrypt_and_mix_hash(b"secret", &mut ct);
    for bit in 0..n * 8 {
        let (_, mut b) = pair();
        let mut bad = ct[..n].to_vec();
        bad[bit / 8] ^= 1 << (bit % 8);
        let before = b.handshake_hash().to_vec();
        let mut pt = [0u8; 64];
        assert_eq!(b.decrypt_and_mix_hash(&bad, &mut pt), Err(()));
        assert_eq!(b.handshake_hash().to_vec(), before);
    }
    assert_eq!(b0.handshake_hash().len(), 32);
}

#[test]
fn undersized_buffer_is_rejected() {
    let mut s = state32();
    s.initialize(NAME);
    let before = s.handshake_hash().to_vec();
    let mut out = [0u8; 3];
    let r = s.decrypt_and_mix_hash(b"four", &mut out);
    assert_eq!(r, Err(()));
    assert_eq!(s.handshake_hash().to_vec(), before);
    let (_, mut b) = pair();
    let tampered = b.decrypt_and_mix_hash(&[0u8; 24], &mut [0u8; 64]);
    assert_eq!(r, tampered);
}

#[test]
fn unkeyed_decrypt_into_exact_buffer() {
    let mut s = state32();
    s.initialize(NAME);
    let mut out = [0u8; 4];
    assert_eq!(s.decrypt_and_mix_hash(b"four", &mut out), Ok(4));
    assert_eq!(&out, b"four");
}

#[test]
fn split_is_repeatable_and_keys_differ() {
    let (mut a, _) = pair();
    let mut c1 = ChaChaPoly::new();
    let mut c2 = ChaChaPoly::new();
    a.split(&mut c1, &mut c2);
    let mut d1 = ChaChaPoly::new();
    let mut d2 = ChaChaPoly::new();
    d1.set(&[1u8; 32], 5);
    d2.set(&[2u8; 32], 6);
    a.split(&mut d1, &mut d2);
    assert_eq!(c1.key_bytes(), d1.key_bytes());
    assert_eq!(c2.key_bytes(), d2.key_bytes());
    assert_ne!(c1.key_bytes(), c2.key_bytes());
    assert_eq!(c1.nonce_value(), 0);
    assert_eq!(d2.nonce_value(), 0);
}

#[test]
fn split_keys_are_first_two_hkdf_outputs() {
    let mut s = state32();
    s.initialize(NAME);
    let ck = s.handshake_hash().to_vec();
    let mut c1 = ChaChaPoly::new();
    let mut c2 = ChaChaPoly::new();
    s.split(&mut c1, &mut c2);
    assert_eq!(c1.key_bytes().to_vec(), hkdf32(&ck, &[], 0)[..CIPHERKEYLEN].to_vec());
    assert_eq!(c2.key_bytes().to_vec(), hkdf32(&ck, &[], 1)[..CIPHERKEYLEN].to_vec());
}

#[test]
fn export_is_32_bytes_for_a_64_byte_digest() {
    let mut s = state64();
    s.initialize(NAME);
    let ck = s.handshake_hash().to_vec();
    assert_eq!(ck.len(), 64);
    let (k1, k2) = s.export();
    assert_eq!(k1.to_vec(), hkdf64(&ck, &[], 0)[..32].to_vec());
    assert_eq!(k2.to_vec(), hkdf64(&ck, &[], 1)[..32].to_vec());
    assert_ne!(k1, k2);
}

#[test]
fn export_ignores_traffic() {
    let (mut a, mut b) = pair();
    let before = a.export();
    let mut ct = [0u8; 64];
    let n = a.encrypt_and_mix_hash(b"data", &mut ct);
    let mut pt = [0u8; 64];
    assert_eq!(b.decrypt_and_mix_hash(&ct[..n], &mut pt), Ok(4));
    assert_eq!(a.export(), before);
    assert_eq!(b.export(), before);
    assert_eq!(a.export(), a.export());
}

#[test]
fn nonce_advances_per_encryption() {
    let mut s = state32();
    s.initialize(NAME);
    let ck = s.handshake_hash().to_vec();
    s.mix_key(b"ikm");
    let key = hkdf32(&ck, b"ikm", 1);
    let mut out = [0u8; 64];
    let n1 = s.encrypt_and_mix_hash(b"one", &mut out);
    let h1 = s.handshake_hash().to_vec();
    let n2 = s.encrypt_and_mix_hash(b"two", &mut out);
    assert_eq!(out[..n2].to_vec(), seal(&key, 1, &h1, b"two"));
    assert_eq!(n1, n2);
}

#[test]
fn sha256_capability_matches_known_digest() {
    let mut s = state32();
    s.initialize("");
    s.mix_hash(b"");
    assert_eq!(s.handshake_hash().to_vec(), sha256(&[0u8; 32]));
    assert_ne!(s.handshake_hash().to_vec(), vec![0u8; 32]);
}

#[test]
fn failed_decrypt_leaves_output_untouched() {
    let mut s = state32();
    s.initialize(NAME);
    let before = s.handshake_hash().to_vec();
    let mut out = [0u8; 2];
    assert_eq!(s.decrypt_and_mix_hash(&[1u8, 2, 3], &mut out), Err(()));
    assert_eq!(out, [0u8; 2]);
    assert_eq!(s.handshake_hash().to_vec(), before);
    let (_, mut b) = pair();
    let mut big = [9u8; 64];
    assert_eq!(b.decrypt_and_mix_hash(&[0u8; 24], &mut big), Err(()));
    assert_eq!(big, [9u8; 64]);
}

#[test]
fn keyed_plaintext_is_ciphertext_less_tag() {
    let (mut a, mut b) = pair();
    let mut ct = [0u8; 64];
    let n = a.encrypt_and_mix_hash(&[5u8; 30], &mut ct);
    assert_eq!(n, 30 + TAGLEN);
    let mut pt = [0u8; 64];
    assert_eq!(b.decrypt_and_mix_hash(&ct[..n], &mut pt), Ok(n - TAGLEN));
    assert_eq!(&pt[..30], &[5u8; 30][..]);
}

#[test]
fn long_plaintext_is_encrypted() {
    let (mut a, mut b) = pair();
    let msg = vec![3u8; 70000];
    let mut ct = vec![0u8; 70000 + TAGLEN];
    let n = a.encrypt_and_mix_hash(&msg, &mut ct);
    assert_eq!(n, 70000 + TAGLEN);
    let mut pt = vec![0u8; 70000];
    assert_eq!(b.decrypt_and_mix_hash(&ct, &mut pt), Ok(70000));
    assert_eq!(pt, msg);
}
