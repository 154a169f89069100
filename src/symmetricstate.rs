use vstd::prelude::*;
use vstd::string::StringSliceAdditionalSpecFns;

use crate::constants::{CIPHERKEYLEN, MAXHASHLEN, TAGLEN};
use crate::types::{Cipher, HashFunction};

verus! {

/// A buffer of `MAXHASHLEN` zero bytes.
fn zeroed() -> (r: [u8; MAXHASHLEN])
    ensures
        forall|j: int| 0 <= j < MAXHASHLEN ==> r@[j] == 0u8,
{
    let mut r = [0u8; MAXHASHLEN];
    let mut i: usize = 0;
    while i < MAXHASHLEN
        invariant
            i <= MAXHASHLEN,
            forall|j: int| 0 <= j < i ==> r@[j] == 0u8,
        decreases MAXHASHLEN - i,
    {
        r[i] = 0;
        i = i + 1;
    }
    r
}

/// The first `n` bytes of `okm`, padded with zero bytes where `okm` is shorter.
pub open spec fn truncated(okm: Seq<u8>, n: nat) -> Seq<u8> {
    Seq::new(n, |i: int| if i < okm.len() { okm[i] } else { 0u8 })
}

/// The transcript hash that a handshake named `name` starts from: the name
/// padded with zero bytes to the digest length where it fits, else its digest.
pub open spec fn initial_hash<H: HashFunction>(name: Seq<u8>) -> Seq<u8> {
    if name.len() <= H::spec_hash_len() {
        truncated(name, H::spec_hash_len())
    } else {
        H::digest(name)
    }
}

/// The transcript hash `h` after `data` is mixed into it.
pub open spec fn mixed_hash<H: HashFunction>(h: Seq<u8>, data: Seq<u8>) -> Seq<u8> {
    H::digest(h + data)
}

/// The cipher key taken from an HKDF output.
pub open spec fn key_of(okm: Seq<u8>) -> Seq<u8> {
    truncated(okm, CIPHERKEYLEN as nat)
}

/// An exporter key taken from an HKDF output: always 32 bytes.
pub open spec fn exported(okm: Seq<u8>) -> Seq<u8> {
    truncated(okm, 32)
}

/// What `encrypt_and_mix_hash` writes for `plaintext`: its sealing under the
/// cipher's key and nonce with the transcript hash as associated data once a
/// key is installed, else the plaintext itself.
pub open spec fn encrypted<C: Cipher, H: HashFunction>(s: SymmetricState<C, H>, plaintext: Seq<u8>) -> Seq<u8> {
    if s.key_installed() {
        C::seal(s.cipher().key(), s.cipher().nonce(), s.transcript(), plaintext)
    } else {
        plaintext
    }
}

/// What `decrypt_and_mix_hash` recovers from `data`: once a key is installed
/// its opening under the cipher's key and nonce with the transcript hash as
/// associated data, else the data itself.
pub open spec fn decrypted<C: Cipher, H: HashFunction>(s: SymmetricState<C, H>, data: Seq<u8>) -> Option<Seq<u8>> {
    if s.key_installed() {
        C::open(s.cipher().key(), s.cipher().nonce(), s.transcript(), data)
    } else {
        Some(data)
    }
}

/// The result of `decrypt_and_mix_hash` on `data` with an output buffer of
/// `capacity` bytes: the length of what was recovered, or the one error where
/// nothing was recovered or it does not fit.
pub open spec fn decrypted_len<C: Cipher, H: HashFunction>(
    s: SymmetricState<C, H>,
    data: Seq<u8>,
    capacity: nat,
) -> Result<usize, ()> {
    match decrypted(s, data) {
        Some(p) => if p.len() <= capacity {
            Ok(p.len() as usize)
        } else {
            Err(())
        },
        None => Err(()),
    }
}

/// `s1` is `s` after `initialize` with a handshake named `name`: the
/// transcript hash and the chaining key both start from `initial_hash`, and
/// no key is installed.
pub open spec fn initialize_step<C: Cipher, H: HashFunction>(
    s: SymmetricState<C, H>,
    s1: SymmetricState<C, H>,
    name: Seq<u8>,
) -> bool {
    &&& s1.transcript() == initial_hash::<H>(name)
    &&& s1.chaining_key() == s1.transcript()
    &&& !s1.key_installed()
    &&& s1.cipher() == s.cipher()
}

/// `s1` is `s` after `mix_key(data)`: the first HKDF output becomes the
/// chaining key, the second the cipher key with a fresh nonce.
pub open spec fn mix_key_step<C: Cipher, H: HashFunction>(
    s: SymmetricState<C, H>,
    s1: SymmetricState<C, H>,
    data: Seq<u8>,
) -> bool {
    &&& s1.chaining_key() == H::hkdf_output(s.chaining_key(), data, 0)
    &&& s1.cipher().key() == key_of(H::hkdf_output(s.chaining_key(), data, 1))
    &&& s1.cipher().nonce() == 0
    &&& s1.transcript() == s.transcript()
    &&& s1.key_installed()
}

/// `s1` is `s` after `mix_hash(data)`: only the transcript hash moves.
pub open spec fn mix_hash_step<C: Cipher, H: HashFunction>(
    s: SymmetricState<C, H>,
    s1: SymmetricState<C, H>,
    data: Seq<u8>,
) -> bool {
    &&& s1.transcript() == mixed_hash::<H>(s.transcript(), data)
    &&& s1.chaining_key() == s.chaining_key()
    &&& s1.cipher() == s.cipher()
    &&& s1.key_installed() == s.key_installed()
}

/// `s1` is `s` after `mix_key_and_hash(psk)`: the three HKDF outputs become
/// the chaining key, data mixed into the transcript, and the cipher key. The
/// key-installed flag is left as it was.
pub open spec fn mix_key_and_hash_step<C: Cipher, H: HashFunction>(
    s: SymmetricState<C, H>,
    s1: SymmetricState<C, H>,
    psk: Seq<u8>,
) -> bool {
    &&& s1.chaining_key() == H::hkdf_output(s.chaining_key(), psk, 0)
    &&& s1.transcript() == mixed_hash::<H>(s.transcript(), H::hkdf_output(s.chaining_key(), psk, 1))
    &&& s1.cipher().key() == key_of(H::hkdf_output(s.chaining_key(), psk, 2))
    &&& s1.cipher().nonce() == 0
    &&& s1.key_installed() == s.key_installed()
}

/// The nonce after one encryption or decryption: advanced only while a key
/// is installed.
pub open spec fn next_nonce<C: Cipher, H: HashFunction>(s: SymmetricState<C, H>) -> nat {
    if s.key_installed() {
        s.cipher().nonce() + 1
    } else {
        s.cipher().nonce()
    }
}

/// `s1` is `s` after `encrypt_and_mix_hash(plaintext)` wrote `ciphertext`:
/// the written bytes, never the plaintext, are mixed into the transcript.
pub open spec fn encrypt_step<C: Cipher, H: HashFunction>(
    s: SymmetricState<C, H>,
    s1: SymmetricState<C, H>,
    plaintext: Seq<u8>,
    ciphertext: Seq<u8>,
) -> bool {
    &&& ciphertext == encrypted(s, plaintext)
    &&& ciphertext.len() == plaintext.len() + if s.key_installed() {
        TAGLEN as int
    } else {
        0int
    }
    &&& s1.transcript() == mixed_hash::<H>(s.transcript(), ciphertext)
    &&& s1.chaining_key() == s.chaining_key()
    &&& s1.key_installed() == s.key_installed()
    &&& s1.cipher().key() == s.cipher().key()
    &&& s1.cipher().nonce() == next_nonce(s)
    &&& !s.key_installed() ==> s1.cipher() == s.cipher()
}

/// `s1` is `s` after `decrypt_and_mix_hash(data)` into a buffer of
/// `capacity` bytes returned `r` and wrote `plaintext`: on success the
/// received bytes are mixed into the transcript, on failure it is untouched.
pub open spec fn decrypt_step<C: Cipher, H: HashFunction>(
    s: SymmetricState<C, H>,
    s1: SymmetricState<C, H>,
    data: Seq<u8>,
    capacity: nat,
    r: Result<usize, ()>,
    plaintext: Seq<u8>,
) -> bool {
    &&& r == decrypted_len(s, data, capacity)
    &&& r is Ok ==> plaintext == decrypted(s, data).unwrap()
    &&& s.key_installed() && r is Ok ==> r->Ok_0 + TAGLEN == data.len()
    &&& s1.transcript() == if r is Ok {
        mixed_hash::<H>(s.transcript(), data)
    } else {
        s.transcript()
    }
    &&& s1.chaining_key() == s.chaining_key()
    &&& s1.key_installed() == s.key_installed()
    &&& s1.cipher().key() == s.cipher().key()
    &&& s1.cipher().nonce() == next_nonce(s)
    &&& !s.key_installed() ==> s1.cipher() == s.cipher()
}

/// The two transport keys that `split` derives from the chaining key `ck`:
/// HKDF over empty input, each output cut to a cipher key.
pub open spec fn transport_keys<H: HashFunction>(ck: Seq<u8>) -> (Seq<u8>, Seq<u8>) {
    (
        key_of(H::hkdf_output(ck, Seq::empty(), 0)),
        key_of(H::hkdf_output(ck, Seq::empty(), 1)),
    )
}

/// `s1` is `s` after `split` seeded `child1` and `child2`: each child holds
/// one transport key with a fresh nonce, and `s` keeps its fields.
pub open spec fn split_step<C: Cipher, H: HashFunction>(
    s: SymmetricState<C, H>,
    s1: SymmetricState<C, H>,
    child1: C,
    child2: C,
) -> bool {
    &&& child1.key() == transport_keys::<H>(s.chaining_key()).0
    &&& child1.nonce() == 0
    &&& child2.key() == transport_keys::<H>(s.chaining_key()).1
    &&& child2.nonce() == 0
    &&& s1.transcript() == s.transcript()
    &&& s1.chaining_key() == s.chaining_key()
    &&& s1.cipher() == s.cipher()
    &&& s1.key_installed() == s.key_installed()
}

/// The two exporter keys that `export` derives from the chaining key `ck`:
/// HKDF over empty input, each output cut or padded to 32 bytes.
pub open spec fn exporter_keys<H: HashFunction>(ck: Seq<u8>) -> (Seq<u8>, Seq<u8>) {
    (exported(H::hkdf_output(ck, Seq::empty(), 0)), exported(H::hkdf_output(ck, Seq::empty(), 1)))
}

/// The operations of a symmetric state, in the order a handshake uses them.
pub trait SymmetricStateType<C: Cipher>: Sized {
    /// Whether the cipher holds a key installed by `mix_key`.
    spec fn key_installed(&self) -> bool;

    /// Whether the cipher's nonce can still advance.
    spec fn nonce_left(&self) -> bool;

    /// Whether the cipher takes a plaintext of `len` bytes in one encryption.
    spec fn plaintext_fits(&self, len: nat) -> bool;

    /// The cipher's name.
    fn cipher_name(&self) -> &'static str;

    /// The hash algorithm's name.
    fn hash_name(&self) -> &'static str;

    /// Seeds the transcript hash and the chaining key from the handshake's
    /// name and forgets any installed key.
    fn initialize(&mut self, handshake_name: &str)
        ensures
            !final(self).key_installed(),
    ;

    /// Ratchets the chaining key over `data` and installs a fresh cipher key.
    fn mix_key(&mut self, data: &[u8])
        ensures
            final(self).key_installed(),
    ;

    /// Mixes `data` into the transcript hash.
    fn mix_hash(&mut self, data: &[u8])
        ensures
            final(self).key_installed() == old(self).key_installed(),
    ;

    /// Mixes a pre-shared key into the chaining key, the transcript hash and
    /// the cipher key. Unlike `mix_key` it leaves the key-installed flag as it
    /// was.
    fn mix_key_and_hash(&mut self, psk: &[u8])
        ensures
            final(self).key_installed() == old(self).key_installed(),
    ;

    /// Whether a key is installed.
    fn has_key(&self) -> (r: bool)
        ensures
            r == self.key_installed(),
    ;

    /// Encrypts `plaintext` into `out`, or copies it before a key is
    /// installed, mixes what was written into the transcript hash and returns
    /// its length.
    fn encrypt_and_mix_hash(&mut self, plaintext: &[u8], out: &mut [u8]) -> (r: usize)
        requires
            old(out)@.len() >= plaintext@.len() + if old(self).key_installed() {
                TAGLEN as int
            } else {
                0int
            },
            old(self).key_installed() ==> old(self).nonce_left() && old(self).plaintext_fits(
                plaintext@.len(),
            ),
        ensures
            final(self).key_installed() == old(self).key_installed(),
    ;

    /// Decrypts `data` into `out`, or copies it before a key is installed,
    /// and on success mixes `data` into the transcript hash. Every failure is
    /// the same unit error.
    fn decrypt_and_mix_hash(&mut self, data: &[u8], out: &mut [u8]) -> (r: Result<usize, ()>)
        requires
            old(self).key_installed() ==> old(self).nonce_left(),
        ensures
            final(self).key_installed() == old(self).key_installed(),
    ;

    /// Seeds `child1` and `child2` with the two transport keys.
    fn split(&mut self, child1: &mut C, child2: &mut C)
        ensures
            final(self).key_installed() == old(self).key_installed(),
    ;

    /// Derives two 32-byte exporter keys from the chaining key.
    fn export(&mut self) -> (r: ([u8; 32], [u8; 32]))
        ensures
            final(self).key_installed() == old(self).key_installed(),
    ;
}

/// The symmetric state: a cipher, a hash algorithm, the running transcript
/// hash `h` and the chaining key `ck`.
///
/// `h` and `ck` have room for the longest digest; only their first
/// `hash_len()` bytes are meaningful.
pub struct SymmetricState<C: Cipher, H: HashFunction> {
    cipherstate: C,
    hasher: H,
    h: [u8; MAXHASHLEN],
    ck: [u8; MAXHASHLEN],
    has_key: bool,
}

impl<C: Cipher, H: HashFunction> SymmetricState<C, H> {
    /// The meaningful bytes of the transcript hash.
    pub closed spec fn transcript(&self) -> Seq<u8> {
        self.h@.subrange(0, H::spec_hash_len() as int)
    }

    /// The meaningful bytes of the chaining key.
    pub closed spec fn chaining_key(&self) -> Seq<u8> {
        self.ck@.subrange(0, H::spec_hash_len() as int)
    }

    /// The owned cipher.
    pub closed spec fn cipher(&self) -> C {
        self.cipherstate
    }

    /// Takes ownership of a fresh cipher and hash; no key is installed.
    pub fn new(cipherstate: C, hasher: H) -> (r: Self)
        ensures
            r.cipher() == cipherstate,
            !r.key_installed(),
            r.transcript() == Seq::new(H::spec_hash_len(), |i: int| 0u8),
            r.chaining_key() == Seq::new(H::spec_hash_len(), |i: int| 0u8),
    {
        proof {
            H::lemma_lengths();
        }
        let r = SymmetricState {
            cipherstate: cipherstate,
            hasher: hasher,
            h: zeroed(),
            ck: zeroed(),
            has_key: false,
        };
        assert(r.transcript() =~= Seq::new(H::spec_hash_len(), |i: int| 0u8));
        assert(r.chaining_key() =~= Seq::new(H::spec_hash_len(), |i: int| 0u8));
        r
    }
}

impl<C: Cipher, H: HashFunction> SymmetricState<C, H> {
    /// The meaningful bytes of the transcript hash.
    pub fn handshake_hash(&self) -> (r: &[u8])
        ensures
            r@ == self.transcript(),
    {
        proof {
            H::lemma_lengths();
        }
        let hash_len = self.hasher.hash_len();
        &self.h[0..hash_len]
    }
}

impl<C: Cipher, H: HashFunction> SymmetricStateType<C> for SymmetricState<C, H> {
    closed spec fn key_installed(&self) -> bool {
        self.has_key
    }

    open spec fn nonce_left(&self) -> bool {
        self.cipher().nonce() < u64::MAX
    }

    open spec fn plaintext_fits(&self, len: nat) -> bool {
        len <= C::max_plaintext_len()
    }

    fn cipher_name(&self) -> (r: &'static str)
        ensures
            r@ == C::spec_name(),
    {
        self.cipherstate.name()
    }

    fn hash_name(&self) -> (r: &'static str)
        ensures
            r@ == H::spec_name(),
    {
        self.hasher.name()
    }

    fn initialize(&mut self, handshake_name: &str)
        ensures
            initialize_step(*old(self), *final(self), handshake_name.spec_bytes()),
    {
        proof {
            H::lemma_lengths();
        }
        let name = handshake_name.as_bytes();
        if name.len() <= self.hasher.hash_len() {
            self.h = zeroed();
            let mut i: usize = 0;
            while i < name.len()
                invariant
                    i <= name@.len() <= H::spec_hash_len() <= MAXHASHLEN,
                    self.h@.len() == MAXHASHLEN,
                    self.cipherstate == old(self).cipherstate,
                    forall|j: int| 0 <= j < i ==> self.h@[j] == name@[j],
                    forall|j: int| i <= j < MAXHASHLEN ==> self.h@[j] == 0u8,
                decreases name@.len() - i,
            {
                self.h[i] = name[i];
                i = i + 1;
            }
            assert(self.transcript() =~= truncated(name@, H::spec_hash_len()));
        } else {
            self.hasher.reset();
            self.hasher.input(name);
            self.hasher.result(&mut self.h);
            assert(name@ =~= Seq::<u8>::empty() + name@);
        }
        self.ck = self.h;
        self.has_key = false;
    }

    fn mix_key(&mut self, data: &[u8])
        ensures
            mix_key_step(*old(self), *final(self), data@),
    {
        proof {
            H::lemma_lengths();
        }
        let hash_len = self.hasher.hash_len();
        let mut out0 = zeroed();
        let mut out1 = zeroed();
        let mut unused = [0u8; 0];
        self.hasher.hkdf(&self.ck[0..hash_len], data, 2, &mut out0, &mut out1, &mut unused);
        self.ck = out0;
        self.cipherstate.set(&out1[0..CIPHERKEYLEN], 0);
        self.has_key = true;
        proof {
            let okm1 = H::hkdf_output(old(self).chaining_key(), data@, 1);
            assert(out1@.subrange(0, CIPHERKEYLEN as int) =~= key_of(okm1));
            assert(self.chaining_key() =~= H::hkdf_output(old(self).chaining_key(), data@, 0));
        }
    }

    fn mix_hash(&mut self, data: &[u8])
        ensures
            mix_hash_step(*old(self), *final(self), data@),
    {
        proof {
            H::lemma_lengths();
        }
        let hash_len = self.hasher.hash_len();
        self.hasher.reset();
        self.hasher.input(&self.h[0..hash_len]);
        self.hasher.input(data);
        self.hasher.result(&mut self.h);
        proof {
            assert(Seq::<u8>::empty() + old(self).transcript() =~= old(self).transcript());
        }
    }

    fn mix_key_and_hash(&mut self, psk: &[u8])
        ensures
            mix_key_and_hash_step(*old(self), *final(self), psk@),
    {
        proof {
            H::lemma_lengths();
        }
        let hash_len = self.hasher.hash_len();
        let mut out0 = zeroed();
        let mut out1 = zeroed();
        let mut out2 = zeroed();
        self.hasher.hkdf(&self.ck[0..hash_len], psk, 3, &mut out0, &mut out1, &mut out2);
        self.ck = out0;
        self.mix_hash(&out1[0..hash_len]);
        self.cipherstate.set(&out2[0..CIPHERKEYLEN], 0);
        proof {
            let ck = old(self).chaining_key();
            assert(out1@.subrange(0, hash_len as int) =~= H::hkdf_output(ck, psk@, 1));
            assert(out2@.subrange(0, CIPHERKEYLEN as int) =~= key_of(H::hkdf_output(ck, psk@, 2)));
            assert(self.chaining_key() =~= H::hkdf_output(ck, psk@, 0));
        }
    }

    fn has_key(&self) -> (r: bool) {
        self.has_key
    }

    fn encrypt_and_mix_hash(&mut self, plaintext: &[u8], out: &mut [u8]) -> (r: usize)
        ensures
            final(out)@.len() == old(out)@.len(),
            r <= final(out)@.len(),
            r == plaintext@.len() + if old(self).key_installed() {
                TAGLEN as int
            } else {
                0int
            },
            encrypt_step(*old(self), *final(self), plaintext@, final(out)@.subrange(0, r as int)),
    {
        proof {
            H::lemma_lengths();
        }
        let hash_len = self.hasher.hash_len();
        let output_len = if self.has_key {
            let ad = &self.h[0..hash_len];
            assert(ad@ == old(self).transcript());
            let n = self.cipherstate.encrypt_ad(ad, plaintext, out);
            assert(out@.subrange(0, n as int) =~= C::seal(
                old(self).cipher().key(),
                old(self).cipher().nonce(),
                ad@,
                plaintext@,
            ));
            n
        } else {
            let mut i: usize = 0;
            while i < plaintext.len()
                invariant
                    i <= plaintext@.len() <= out@.len(),
                    out@.len() == old(out)@.len(),
                    forall|j: int| 0 <= j < i ==> out@[j] == plaintext@[j],
                decreases plaintext@.len() - i,
            {
                out[i] = plaintext[i];
                i = i + 1;
            }
            assert(out@.subrange(0, plaintext@.len() as int) =~= plaintext@);
            plaintext.len()
        };
        self.mix_hash(&out[0..output_len]);
        output_len
    }

    fn decrypt_and_mix_hash(&mut self, data: &[u8], out: &mut [u8]) -> (r: Result<usize, ()>)
        ensures
            final(out)@.len() == old(out)@.len(),
            r is Ok ==> r->Ok_0 <= final(out)@.len(),
            r is Err ==> final(out)@ == old(out)@,
            decrypt_step(
                *old(self),
                *final(self),
                data@,
                old(out)@.len(),
                r,
                final(out)@.subrange(0, if r is Ok { r->Ok_0 as int } else { 0 }),
            ),
    {
        proof {
            H::lemma_lengths();
        }
        let hash_len = self.hasher.hash_len();
        let payload_len = if self.has_key {
            let ad = &self.h[0..hash_len];
            assert(ad@ == old(self).transcript());
            let res = self.cipherstate.decrypt_ad(ad, data, out);
            match res {
                Ok(n) => {
                    proof {
                        let p = C::open(
                            old(self).cipher().key(),
                            old(self).cipher().nonce(),
                            ad@,
                            data@,
                        ).unwrap();
                        assert(out@.subrange(0, n as int) =~= p);
                    }
                    n
                },
                Err(e) => {
                    return Err(e);
                },
            }
        } else {
            if out.len() < data.len() {
                return Err(());
            }
            let mut i: usize = 0;
            while i < data.len()
                invariant
                    i <= data@.len() <= out@.len(),
                    out@.len() == old(out)@.len(),
                    forall|j: int| 0 <= j < i ==> out@[j] == data@[j],
                decreases data@.len() - i,
            {
                out[i] = data[i];
                i = i + 1;
            }
            assert(out@.subrange(0, data@.len() as int) =~= data@);
            data.len()
        };
        self.mix_hash(data);
        Ok(payload_len)
    }

    fn split(&mut self, child1: &mut C, child2: &mut C)
        ensures
            split_step(*old(self), *final(self), *final(child1), *final(child2)),
    {
        proof {
            H::lemma_lengths();
        }
        let hash_len = self.hasher.hash_len();
        let mut out0 = zeroed();
        let mut out1 = zeroed();
        let mut unused = [0u8; 0];
        let empty = [0u8; 0];
        self.hasher.hkdf(&self.ck[0..hash_len], &empty, 2, &mut out0, &mut out1, &mut unused);
        child1.set(&out0[0..CIPHERKEYLEN], 0);
        child2.set(&out1[0..CIPHERKEYLEN], 0);
        proof {
            let ck = old(self).chaining_key();
            assert(empty@ =~= Seq::<u8>::empty());
            assert(out0@.subrange(0, CIPHERKEYLEN as int) =~= key_of(H::hkdf_output(ck, Seq::empty(), 0)));
            assert(out1@.subrange(0, CIPHERKEYLEN as int) =~= key_of(H::hkdf_output(ck, Seq::empty(), 1)));
        }
    }

    fn export(&mut self) -> (r: ([u8; 32], [u8; 32]))
        ensures
            (r.0@, r.1@) == exporter_keys::<H>(old(self).chaining_key()),
            final(self).transcript() == old(self).transcript(),
            final(self).chaining_key() == old(self).chaining_key(),
            final(self).cipher() == old(self).cipher(),
            final(self).key_installed() == old(self).key_installed(),
    {
        proof {
            H::lemma_lengths();
        }
        let hash_len = self.hasher.hash_len();
        let mut out0 = zeroed();
        let mut out1 = zeroed();
        let mut unused = [0u8; 0];
        let empty = [0u8; 0];
        self.hasher.hkdf(&self.ck[0..hash_len], &empty, 2, &mut out0, &mut out1, &mut unused);
        let mut k1 = [0u8; 32];
        let mut k2 = [0u8; 32];
        let mut i: usize = 0;
        while i < 32
            invariant
                i <= 32,
                forall|j: int| 0 <= j < i ==> k1@[j] == out0@[j] && k2@[j] == out1@[j],
            decreases 32 - i,
        {
            k1[i] = out0[i];
            k2[i] = out1[i];
            i = i + 1;
        }
        proof {
            let ck = old(self).chaining_key();
            assert(empty@ =~= Seq::<u8>::empty());
            assert(k1@ =~= exporter_keys::<H>(ck).0);
            assert(k2@ =~= exporter_keys::<H>(ck).1);
        }
        (k1, k2)
    }
}

} // verus!
