use vstd::prelude::*;

use crate::constants::{CIPHERKEYLEN, MAXHASHLEN, TAGLEN};

verus! {

/// A hash algorithm, with the HKDF construction built on it.
///
/// The algorithm is fixed by the implementing type; a value of the type
/// carries only the bytes fed in since the last `reset`.
pub trait HashFunction: Sized {
    /// Digest length in bytes.
    spec fn spec_hash_len() -> nat;

    /// The algorithm's name.
    spec fn spec_name() -> Seq<char>;

    /// The digest of `data`.
    spec fn digest(data: Seq<u8>) -> Seq<u8>;

    /// Output number `i` (0, 1 or 2) of HKDF with salt `chaining_key` over
    /// `input_key_material`.
    spec fn hkdf_output(chaining_key: Seq<u8>, input_key_material: Seq<u8>, i: nat) -> Seq<u8>;

    /// The bytes fed in since the last `reset`.
    spec fn pending(&self) -> Seq<u8>;

    /// Every digest and every HKDF output is `spec_hash_len()` bytes long,
    /// which fits the fixed buffers.
    proof fn lemma_lengths()
        ensures
            Self::spec_hash_len() <= MAXHASHLEN,
            forall|d: Seq<u8>| #[trigger] Self::digest(d).len() == Self::spec_hash_len(),
            forall|k: Seq<u8>, m: Seq<u8>, i: nat| #[trigger]
                Self::hkdf_output(k, m, i).len() == Self::spec_hash_len(),
    ;

    fn name(&self) -> (r: &'static str)
        ensures
            r@ == Self::spec_name(),
    ;

    fn hash_len(&self) -> (r: usize)
        ensures
            r == Self::spec_hash_len(),
    ;

    fn reset(&mut self)
        ensures
            final(self).pending() == Seq::<u8>::empty(),
    ;

    fn input(&mut self, data: &[u8])
        ensures
            final(self).pending() == old(self).pending() + data@,
    ;

    /// Writes the digest of the pending bytes into the first `hash_len()`
    /// bytes of `out`.
    fn result(&mut self, out: &mut [u8])
        requires
            old(out)@.len() >= Self::spec_hash_len(),
        ensures
            final(out)@.len() == old(out)@.len(),
            final(out)@.subrange(0, Self::spec_hash_len() as int) == Self::digest(
                old(self).pending(),
            ),
            final(out)@.subrange(Self::spec_hash_len() as int, old(out)@.len() as int)
                == old(out)@.subrange(Self::spec_hash_len() as int, old(out)@.len() as int),
    ;

    /// Writes the first `outputs` HKDF outputs into the first `hash_len()`
    /// bytes of `out1`, `out2` and, when three are asked for, `out3`.
    fn hkdf(
        &mut self,
        chaining_key: &[u8],
        input_key_material: &[u8],
        outputs: usize,
        out1: &mut [u8],
        out2: &mut [u8],
        out3: &mut [u8],
    )
        requires
            outputs == 2 || outputs == 3,
            old(out1)@.len() >= Self::spec_hash_len(),
            old(out2)@.len() >= Self::spec_hash_len(),
            outputs == 3 ==> old(out3)@.len() >= Self::spec_hash_len(),
        ensures
            final(out1)@ == written(old(out1)@, Self::hkdf_output(chaining_key@, input_key_material@, 0)),
            final(out2)@ == written(old(out2)@, Self::hkdf_output(chaining_key@, input_key_material@, 1)),
            outputs == 3 ==> final(out3)@ == written(old(out3)@, Self::hkdf_output(chaining_key@, input_key_material@, 2)),
            outputs == 2 ==> final(out3)@ == old(out3)@,
    ;
}

/// `buf` with its first `data.len()` bytes replaced by `data`.
pub open spec fn written(buf: Seq<u8>, data: Seq<u8>) -> Seq<u8> {
    data + buf.subrange(data.len() as int, buf.len() as int)
}

/// An AEAD cipher together with its key and nonce counter.
pub trait Cipher: Sized {
    /// The cipher's name.
    spec fn spec_name() -> Seq<char>;

    /// The ciphertext of `plaintext` under `key`, `nonce` and associated data `ad`.
    spec fn seal(key: Seq<u8>, nonce: nat, ad: Seq<u8>, plaintext: Seq<u8>) -> Seq<u8>;

    /// The plaintext of `ciphertext`, or `None` where it does not authenticate.
    spec fn open(key: Seq<u8>, nonce: nat, ad: Seq<u8>, ciphertext: Seq<u8>) -> Option<Seq<u8>>;

    /// The installed key.
    spec fn key(&self) -> Seq<u8>;

    /// The nonce that the next encryption or decryption uses.
    spec fn nonce(&self) -> nat;

    /// The longest plaintext that one encryption takes.
    spec fn max_plaintext_len() -> nat;

    fn name(&self) -> (r: &'static str)
        ensures
            r@ == Self::spec_name(),
    ;

    /// Installs `key` and sets the nonce counter to `nonce`.
    fn set(&mut self, key: &[u8], nonce: u64)
        requires
            key@.len() == CIPHERKEYLEN,
        ensures
            final(self).key() == key@,
            final(self).nonce() == nonce,
    ;

    /// Encrypts `plaintext` into the front of `out` and advances the nonce.
    fn encrypt_ad(&mut self, ad: &[u8], plaintext: &[u8], out: &mut [u8]) -> (r: usize)
        requires
            old(out)@.len() >= plaintext@.len() + TAGLEN,
            plaintext@.len() <= Self::max_plaintext_len(),
            old(self).nonce() < u64::MAX,
        ensures
            r == plaintext@.len() + TAGLEN,
            Self::seal(old(self).key(), old(self).nonce(), ad@, plaintext@).len() == r,
            final(out)@ == written(
                old(out)@,
                Self::seal(old(self).key(), old(self).nonce(), ad@, plaintext@),
            ),
            final(self).key() == old(self).key(),
            final(self).nonce() == old(self).nonce() + 1,
    ;

    /// Decrypts `ciphertext` into the front of `out` and advances the nonce,
    /// whether or not it authenticates. On failure `out` is left as it was;
    /// on success the plaintext is the ciphertext less its tag.
    fn decrypt_ad(&mut self, ad: &[u8], ciphertext: &[u8], out: &mut [u8]) -> (r: Result<usize, ()>)
        requires
            old(self).nonce() < u64::MAX,
        ensures
            final(out)@.len() == old(out)@.len(),
            final(self).key() == old(self).key(),
            final(self).nonce() == old(self).nonce() + 1,
            r is Ok ==> r->Ok_0 + TAGLEN == ciphertext@.len(),
            r is Err ==> final(out)@ == old(out)@,
            match Self::open(old(self).key(), old(self).nonce(), ad@, ciphertext@) {
                Some(p) => if p.len() <= old(out)@.len() {
                    r is Ok && r->Ok_0 == p.len() && final(out)@ == written(old(out)@, p)
                } else {
                    r is Err
                },
                None => r is Err,
            },
    ;
}

} // verus!
