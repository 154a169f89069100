use vstd::prelude::*;

use chacha20poly1305::aead::{Aead, KeyInit, Payload};
use chacha20poly1305::{ChaCha20Poly1305, Key, Nonce};

use crate::constants::CIPHERKEYLEN;
use crate::types::Cipher;
use crate::utils::copy_block;

verus! {

/// The ChaCha20-Poly1305 ciphertext, tag appended, of `plaintext` under
/// `key`, the 12-byte `nonce` and associated data `ad`.
pub uninterp spec fn chachapoly_seal_of(key: Seq<u8>, nonce: Seq<u8>, ad: Seq<u8>, plaintext: Seq<u8>) -> Seq<u8>;

/// The ChaCha20-Poly1305 opening of `ciphertext` under `key`, the 12-byte
/// `nonce` and associated data `ad`: `None` where it does not authenticate.
pub uninterp spec fn chachapoly_open_of(key: Seq<u8>, nonce: Seq<u8>, ad: Seq<u8>, ciphertext: Seq<u8>) -> Option<Seq<u8>>;

/// Relies on chacha20poly1305's `ChaCha20Poly1305::encrypt` (aead's default
/// for a postfix tag): the ciphertext, as long as the plaintext, then the
/// 16-byte tag. The keystream starts at block 1 of a 32-bit block counter,
/// so at most 2^32 - 2 blocks of 64 bytes can be encrypted.
#[verifier::external_body]
fn chachapoly_seal(key: &[u8; 32], nonce: &[u8; 12], ad: &[u8], plaintext: &[u8]) -> (r: Vec<u8>)
    requires
        plaintext@.len() <= CHACHA_MAX_LEN,
    ensures
        r@ == chachapoly_seal_of(key@, nonce@, ad@, plaintext@),
        r@.len() == plaintext@.len() + 16,
{
    let aead = ChaCha20Poly1305::new(Key::from_slice(key));
    aead.encrypt(Nonce::from_slice(nonce), Payload { msg: plaintext, aad: ad }).unwrap_or_default()
}

/// Relies on chacha20poly1305's `ChaCha20Poly1305::decrypt` (aead's default
/// for a postfix tag): the ciphertext less its 16-byte tag, decrypted, where
/// the tag verifies, else an error, here `None`. The body is bounded as for
/// `chachapoly_seal`.
#[verifier::external_body]
fn chachapoly_open(key: &[u8; 32], nonce: &[u8; 12], ad: &[u8], ciphertext: &[u8]) -> (r: Option<Vec<u8>>)
    requires
        ciphertext@.len() <= CHACHA_MAX_LEN + 16,
    ensures
        match r {
            Some(p) => chachapoly_open_of(key@, nonce@, ad@, ciphertext@) == Some(p@) && p@.len()
                + 16 == ciphertext@.len(),
            None => chachapoly_open_of(key@, nonce@, ad@, ciphertext@) is None,
        },
{
    let aead = ChaCha20Poly1305::new(Key::from_slice(key));
    aead.decrypt(Nonce::from_slice(nonce), Payload { msg: ciphertext, aad: ad }).ok()
}

/// The longest plaintext that ChaCha20-Poly1305 encrypts under one nonce:
/// 2^32 - 2 blocks of 64 bytes.
pub const CHACHA_MAX_LEN: u64 = 274_877_906_816;

/// The 12-byte nonce for counter `n`: four zero bytes, then `n` little-endian.
pub open spec fn nonce_bytes(n: u64) -> Seq<u8> {
    Seq::new(12, |i: int| if i < 4 { 0u8 } else { ((n >> (8 * (i - 4)) as u64) & 0xff) as u8 })
}

fn encode_nonce(n: u64) -> (r: [u8; 12])
    ensures
        r@ == nonce_bytes(n),
{
    let mut r = [0u8; 12];
    let mut i: usize = 0;
    while i < 12
        invariant
            i <= 12,
            forall|j: int| 0 <= j < i ==> r@[j] == nonce_bytes(n)[j],
        decreases 12 - i,
    {
        if i < 4 {
            r[i] = 0;
        } else {
            r[i] = ((n >> (8 * (i - 4)) as u64) & 0xff) as u8;
        }
        i = i + 1;
    }
    assert(r@ =~= nonce_bytes(n));
    r
}

/// ChaCha20-Poly1305 with a 64-bit nonce counter.
pub struct ChaChaPoly {
    key: [u8; 32],
    n: u64,
}

impl ChaChaPoly {
    /// A cipher with an all-zero key and nonce 0, to be keyed with `set`.
    pub fn new() -> (r: Self)
        ensures
            r.nonce() == 0,
    {
        ChaChaPoly { key: [0u8; 32], n: 0 }
    }

    /// The installed key.
    pub fn key_bytes(&self) -> (r: [u8; 32])
        ensures
            r@ == self.key(),
    {
        self.key
    }

    /// The nonce that the next encryption or decryption uses.
    pub fn nonce_value(&self) -> (r: u64)
        ensures
            r == self.nonce(),
    {
        self.n
    }
}

impl Cipher for ChaChaPoly {
    open spec fn spec_name() -> Seq<char> {
        seq!['C', 'h', 'a', 'C', 'h', 'a', 'P', 'o', 'l', 'y']
    }

    open spec fn seal(key: Seq<u8>, nonce: nat, ad: Seq<u8>, plaintext: Seq<u8>) -> Seq<u8> {
        chachapoly_seal_of(key, nonce_bytes(nonce as u64), ad, plaintext)
    }

    open spec fn open(key: Seq<u8>, nonce: nat, ad: Seq<u8>, ciphertext: Seq<u8>) -> Option<Seq<u8>> {
        if ciphertext.len() <= CHACHA_MAX_LEN + 16 {
            chachapoly_open_of(key, nonce_bytes(nonce as u64), ad, ciphertext)
        } else {
            None
        }
    }

    open spec fn max_plaintext_len() -> nat {
        CHACHA_MAX_LEN as nat
    }

    closed spec fn key(&self) -> Seq<u8> {
        self.key@
    }

    closed spec fn nonce(&self) -> nat {
        self.n as nat
    }

    fn name(&self) -> (r: &'static str) {
        proof {
            reveal_strlit("ChaChaPoly");
        }
        "ChaChaPoly"
    }

    fn set(&mut self, key: &[u8], nonce: u64) {
        let mut i: usize = 0;
        while i < CIPHERKEYLEN
            invariant
                i <= CIPHERKEYLEN == key@.len(),
                forall|j: int| 0 <= j < i ==> self.key@[j] == key@[j],
            decreases CIPHERKEYLEN - i,
        {
            self.key[i] = key[i];
            i = i + 1;
        }
        self.n = nonce;
        assert(self.key@ =~= key@);
    }

    fn encrypt_ad(&mut self, ad: &[u8], plaintext: &[u8], out: &mut [u8]) -> (r: usize) {
        let nonce = encode_nonce(self.n);
        let c = chachapoly_seal(&self.key, &nonce, ad, plaintext);
        let len = c.len();
        copy_block(c.as_slice(), 0, len, out);
        assert(c@.subrange(0, len as int) =~= c@);
        self.n = self.n + 1;
        len
    }

    fn decrypt_ad(&mut self, ad: &[u8], ciphertext: &[u8], out: &mut [u8]) -> (r: Result<usize, ()>) {
        let nonce = encode_nonce(self.n);
        self.n = self.n + 1;
        if ciphertext.len() as u64 > CHACHA_MAX_LEN + 16 {
            return Err(());
        }
        let opened = chachapoly_open(&self.key, &nonce, ad, ciphertext);
        match opened {
            Some(p) => {
                let len = p.len();
                if len <= out.len() {
                    copy_block(p.as_slice(), 0, len, out);
                    assert(p@.subrange(0, len as int) =~= p@);
                    Ok(len)
                } else {
                    Err(())
                }
            },
            None => Err(()),
        }
    }
}

} // verus!
