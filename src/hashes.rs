use vstd::prelude::*;

use hkdf::Hkdf;
use sha2::Digest;

use crate::symmetricstate::truncated;
use crate::types::HashFunction;
use crate::utils::{append, copy_block};

verus! {

/// The SHA-256 digest of `data`.
pub uninterp spec fn sha256_of(data: Seq<u8>) -> Seq<u8>;

/// The SHA-512 digest of `data`.
pub uninterp spec fn sha512_of(data: Seq<u8>) -> Seq<u8>;

/// Three blocks of RFC 5869 HKDF-SHA-256 output with salt `salt`, input key
/// material `ikm` and empty info.
pub uninterp spec fn hkdf_sha256_of(salt: Seq<u8>, ikm: Seq<u8>) -> Seq<u8>;

/// Three blocks of RFC 5869 HKDF-SHA-512 output with salt `salt`, input key
/// material `ikm` and empty info.
pub uninterp spec fn hkdf_sha512_of(salt: Seq<u8>, ikm: Seq<u8>) -> Seq<u8>;

/// Relies on sha2's `Sha256::digest`: the 32-byte SHA-256 digest of `data`.
#[verifier::external_body]
fn sha256(data: &[u8]) -> (r: [u8; 32])
    ensures
        r@ == sha256_of(data@),
{
    sha2::Sha256::digest(data).into()
}

/// Relies on sha2's `Sha512::digest`: the 64-byte SHA-512 digest of `data`.
#[verifier::external_body]
fn sha512(data: &[u8]) -> (r: [u8; 64])
    ensures
        r@ == sha512_of(data@),
{
    sha2::Sha512::digest(data).into()
}

/// Relies on hkdf's `Hkdf::<Sha256>::new` and `expand` with empty info: the
/// first 96 bytes of output. `expand` fails only past 255 blocks.
#[verifier::external_body]
fn hkdf_sha256(salt: &[u8], ikm: &[u8]) -> (r: [u8; 96])
    ensures
        r@ == hkdf_sha256_of(salt@, ikm@),
{
    let mut okm = [0u8; 96];
    let _ = Hkdf::<sha2::Sha256>::new(Some(salt), ikm).expand(&[], &mut okm);
    okm
}

/// Relies on hkdf's `Hkdf::<Sha512>::new` and `expand` with empty info: the
/// first 192 bytes of output. `expand` fails only past 255 blocks.
#[verifier::external_body]
fn hkdf_sha512(salt: &[u8], ikm: &[u8]) -> (r: [u8; 192])
    ensures
        r@ == hkdf_sha512_of(salt@, ikm@),
{
    let mut okm = [0u8; 192];
    let _ = Hkdf::<sha2::Sha512>::new(Some(salt), ikm).expand(&[], &mut okm);
    okm
}

/// Block `i` of `len` bytes of `okm`.
pub open spec fn block(okm: Seq<u8>, len: nat, i: nat) -> Seq<u8> {
    Seq::new(len, |j: int| okm[len * i + j])
}

/// SHA-256, with HKDF over HMAC-SHA-256.
pub struct HashSha256 {
    buf: Vec<u8>,
}

impl HashSha256 {
    pub fn new() -> (r: Self)
        ensures
            r.pending() == Seq::<u8>::empty(),
    {
        HashSha256 { buf: Vec::new() }
    }
}

impl HashFunction for HashSha256 {
    open spec fn spec_hash_len() -> nat {
        32
    }

    open spec fn spec_name() -> Seq<char> {
        seq!['S', 'H', 'A', '2', '5', '6']
    }

    open spec fn digest(data: Seq<u8>) -> Seq<u8> {
        truncated(sha256_of(data), 32)
    }

    open spec fn hkdf_output(chaining_key: Seq<u8>, input_key_material: Seq<u8>, i: nat) -> Seq<u8> {
        block(hkdf_sha256_of(chaining_key, input_key_material), 32, i)
    }

    closed spec fn pending(&self) -> Seq<u8> {
        self.buf@
    }

    proof fn lemma_lengths() {
    }

    fn name(&self) -> (r: &'static str) {
        proof {
            reveal_strlit("SHA256");
        }
        "SHA256"
    }

    fn hash_len(&self) -> (r: usize) {
        32
    }

    fn reset(&mut self) {
        self.buf.clear();
    }

    fn input(&mut self, data: &[u8]) {
        append(&mut self.buf, data);
    }

    fn result(&mut self, out: &mut [u8]) {
        let d = sha256(self.buf.as_slice());
        assert(d@ =~= truncated(sha256_of(self.buf@), 32));
        copy_block(&d, 0, 32, out);
        assert(d@.subrange(0, 32) =~= d@);
    }

    fn hkdf(
        &mut self,
        chaining_key: &[u8],
        input_key_material: &[u8],
        outputs: usize,
        out1: &mut [u8],
        out2: &mut [u8],
        out3: &mut [u8],
    ) {
        let okm = hkdf_sha256(chaining_key, input_key_material);
        copy_block(&okm, 0, 32, out1);
        copy_block(&okm, 32, 32, out2);
        if outputs == 3 {
            copy_block(&okm, 64, 32, out3);
        }
        proof {
            let s = hkdf_sha256_of(chaining_key@, input_key_material@);
            assert(okm@.subrange(0, 32) =~= block(s, 32, 0));
            assert(okm@.subrange(32, 64) =~= block(s, 32, 1));
            assert(okm@.subrange(64, 96) =~= block(s, 32, 2));
        }
    }
}

/// SHA-512, with HKDF over HMAC-SHA-512.
pub struct HashSha512 {
    buf: Vec<u8>,
}

impl HashSha512 {
    pub fn new() -> (r: Self)
        ensures
            r.pending() == Seq::<u8>::empty(),
    {
        HashSha512 { buf: Vec::new() }
    }
}

impl HashFunction for HashSha512 {
    open spec fn spec_hash_len() -> nat {
        64
    }

    open spec fn spec_name() -> Seq<char> {
        seq!['S', 'H', 'A', '5', '1', '2']
    }

    open spec fn digest(data: Seq<u8>) -> Seq<u8> {
        truncated(sha512_of(data), 64)
    }

    open spec fn hkdf_output(chaining_key: Seq<u8>, input_key_material: Seq<u8>, i: nat) -> Seq<u8> {
        block(hkdf_sha512_of(chaining_key, input_key_material), 64, i)
    }

    closed spec fn pending(&self) -> Seq<u8> {
        self.buf@
    }

    proof fn lemma_lengths() {
    }

    fn name(&self) -> (r: &'static str) {
        proof {
            reveal_strlit("SHA512");
        }
        "SHA512"
    }

    fn hash_len(&self) -> (r: usize) {
        64
    }

    fn reset(&mut self) {
        self.buf.clear();
    }

    fn input(&mut self, data: &[u8]) {
        append(&mut self.buf, data);
    }

    fn result(&mut self, out: &mut [u8]) {
        let d = sha512(self.buf.as_slice());
        assert(d@ =~= truncated(sha512_of(self.buf@), 64));
        copy_block(&d, 0, 64, out);
        assert(d@.subrange(0, 64) =~= d@);
    }

    fn hkdf(
        &mut self,
        chaining_key: &[u8],
        input_key_material: &[u8],
        outputs: usize,
        out1: &mut [u8],
        out2: &mut [u8],
        out3: &mut [u8],
    ) {
        let okm = hkdf_sha512(chaining_key, input_key_material);
        copy_block(&okm, 0, 64, out1);
        copy_block(&okm, 64, 64, out2);
        if outputs == 3 {
            copy_block(&okm, 128, 64, out3);
        }
        proof {
            let s = hkdf_sha512_of(chaining_key@, input_key_material@);
            assert(okm@.subrange(0, 64) =~= block(s, 64, 0));
            assert(okm@.subrange(64, 128) =~= block(s, 64, 1));
            assert(okm@.subrange(128, 192) =~= block(s, 64, 2));
        }
    }
}

} // verus!
