use vstd::prelude::*;

use crate::symmetricstate::{
    decrypt_step, decrypted, decrypted_len, encrypt_step, exporter_keys, initialize_step,
    mix_hash_step, mix_key_and_hash_step, mix_key_step, split_step, SymmetricState,
    SymmetricStateType,
};
use crate::types::{Cipher, HashFunction};

verus! {

/// Two symmetric states agree on everything that later operations read: the
/// transcript hash, the chaining key, whether a key is installed and, if one
/// is, the cipher's key and nonce.
pub open spec fn in_step<C: Cipher, H: HashFunction>(
    a: SymmetricState<C, H>,
    b: SymmetricState<C, H>,
) -> bool {
    &&& a.transcript() == b.transcript()
    &&& a.chaining_key() == b.chaining_key()
    &&& a.key_installed() == b.key_installed()
    &&& a.key_installed() ==> a.cipher().key() == b.cipher().key() && a.cipher().nonce()
        == b.cipher().nonce()
}

/// Initializing two independently built states with the same handshake name
/// leaves them in step, whatever they held before.
pub proof fn lemma_initialize_deterministic<C: Cipher, H: HashFunction>(
    a: SymmetricState<C, H>,
    a1: SymmetricState<C, H>,
    b: SymmetricState<C, H>,
    b1: SymmetricState<C, H>,
    name: Seq<u8>,
)
    requires
        initialize_step(a, a1, name),
        initialize_step(b, b1, name),
    ensures
        in_step(a1, b1),
{
}

/// Mixing the same data into the transcripts of two states in step keeps them in step.
pub proof fn lemma_mix_hash_in_step<C: Cipher, H: HashFunction>(
    a: SymmetricState<C, H>,
    a1: SymmetricState<C, H>,
    b: SymmetricState<C, H>,
    b1: SymmetricState<C, H>,
    data: Seq<u8>,
)
    requires
        in_step(a, b),
        mix_hash_step(a, a1, data),
        mix_hash_step(b, b1, data),
    ensures
        in_step(a1, b1),
{
}

/// Mixing the same key material into two states in step keeps them in step.
pub proof fn lemma_mix_key_in_step<C: Cipher, H: HashFunction>(
    a: SymmetricState<C, H>,
    a1: SymmetricState<C, H>,
    b: SymmetricState<C, H>,
    b1: SymmetricState<C, H>,
    data: Seq<u8>,
)
    requires
        in_step(a, b),
        mix_key_step(a, a1, data),
        mix_key_step(b, b1, data),
    ensures
        in_step(a1, b1),
{
}

/// Mixing the same pre-shared key into two states in step keeps them in step.
pub proof fn lemma_mix_key_and_hash_in_step<C: Cipher, H: HashFunction>(
    a: SymmetricState<C, H>,
    a1: SymmetricState<C, H>,
    b: SymmetricState<C, H>,
    b1: SymmetricState<C, H>,
    psk: Seq<u8>,
)
    requires
        in_step(a, b),
        mix_key_and_hash_step(a, a1, psk),
        mix_key_and_hash_step(b, b1, psk),
    ensures
        in_step(a1, b1),
{
}

/// Two states in step write the same bytes when they encrypt the same
/// plaintext, and stay in step.
pub proof fn lemma_encrypt_in_step<C: Cipher, H: HashFunction>(
    a: SymmetricState<C, H>,
    a1: SymmetricState<C, H>,
    b: SymmetricState<C, H>,
    b1: SymmetricState<C, H>,
    plaintext: Seq<u8>,
    ca: Seq<u8>,
    cb: Seq<u8>,
)
    requires
        in_step(a, b),
        encrypt_step(a, a1, plaintext, ca),
        encrypt_step(b, b1, plaintext, cb),
    ensures
        ca == cb,
        in_step(a1, b1),
{
}

/// What one of two states in step encrypts, the other decrypts: into a
/// buffer large enough for the plaintext it succeeds and recovers exactly
/// the plaintext, and the two states are still in step afterwards. Once a
/// key is installed this rests on the cipher opening what it sealed.
pub proof fn lemma_round_trip<C: Cipher, H: HashFunction>(
    a: SymmetricState<C, H>,
    a1: SymmetricState<C, H>,
    b: SymmetricState<C, H>,
    b1: SymmetricState<C, H>,
    plaintext: Seq<u8>,
    ciphertext: Seq<u8>,
    capacity: nat,
    r: Result<usize, ()>,
    recovered: Seq<u8>,
)
    requires
        in_step(a, b),
        plaintext.len() <= capacity <= usize::MAX,
        a.key_installed() ==> C::open(
            a.cipher().key(),
            a.cipher().nonce(),
            a.transcript(),
            C::seal(a.cipher().key(), a.cipher().nonce(), a.transcript(), plaintext),
        ) == Some(plaintext),
        encrypt_step(a, a1, plaintext, ciphertext),
        decrypt_step(b, b1, ciphertext, capacity, r, recovered),
    ensures
        r is Ok,
        r->Ok_0 == plaintext.len(),
        recovered == plaintext,
        in_step(a1, b1),
{
    assert(decrypted(b, ciphertext) == Some(plaintext));
}

/// Before a key is installed, decrypting into a buffer shorter than the
/// input fails with the same unit error that a rejected ciphertext gives.
pub proof fn lemma_undersized_buffer_fails<C: Cipher, H: HashFunction>(
    s: SymmetricState<C, H>,
    data: Seq<u8>,
    capacity: nat,
)
    requires
        !s.key_installed(),
        capacity < data.len(),
    ensures
        decrypted_len(s, data, capacity) == Err::<usize, ()>(()),
{
}

/// Once a key is installed, a ciphertext that does not open fails with the
/// unit error, whatever the buffer.
pub proof fn lemma_rejected_ciphertext_fails<C: Cipher, H: HashFunction>(
    s: SymmetricState<C, H>,
    data: Seq<u8>,
    capacity: nat,
)
    requires
        s.key_installed(),
        C::open(s.cipher().key(), s.cipher().nonce(), s.transcript(), data) is None,
    ensures
        decrypted_len(s, data, capacity) == Err::<usize, ()>(()),
{
}

/// Mixing `x` then `y` gives the same transcript as `y` then `x`, for
/// `x != y`, only through a collision of the digest: two different inputs
/// with one digest.
pub proof fn lemma_mix_hash_order<C: Cipher, H: HashFunction>(
    s: SymmetricState<C, H>,
    s1: SymmetricState<C, H>,
    s2: SymmetricState<C, H>,
    t1: SymmetricState<C, H>,
    t2: SymmetricState<C, H>,
    x: Seq<u8>,
    y: Seq<u8>,
)
    requires
        x != y,
        mix_hash_step(s, s1, x),
        mix_hash_step(s1, s2, y),
        mix_hash_step(s, t1, y),
        mix_hash_step(t1, t2, x),
    ensures
        s2.transcript() == t2.transcript() ==> {
            let u = s1.transcript() + y;
            let v = t1.transcript() + x;
            u != v && H::digest(u) == H::digest(v)
        },
{
    H::lemma_lengths();
    let u = s1.transcript() + y;
    let v = t1.transcript() + x;
    if u == v {
        let n = H::spec_hash_len() as int;
        assert(s1.transcript().len() == n);
        assert(t1.transcript().len() == n);
        assert(y =~= u.subrange(n, u.len() as int));
        assert(x =~= v.subrange(n, v.len() as int));
    }
}

/// `split` depends on the chaining key alone: two states with one chaining
/// key give the same transport keys, and since `split` keeps the chaining
/// key, calling it again repeats them.
pub proof fn lemma_split_deterministic<C: Cipher, H: HashFunction>(
    a: SymmetricState<C, H>,
    a1: SymmetricState<C, H>,
    c1: C,
    c2: C,
    b: SymmetricState<C, H>,
    b1: SymmetricState<C, H>,
    d1: C,
    d2: C,
)
    requires
        a.chaining_key() == b.chaining_key(),
        split_step(a, a1, c1, c2),
        split_step(b, b1, d1, d2),
    ensures
        c1.key() == d1.key(),
        c2.key() == d2.key(),
        c1.nonce() == d1.nonce(),
        c2.nonce() == d2.nonce(),
        a1.chaining_key() == a.chaining_key(),
{
}

/// Exporter keys are 32 bytes long whatever the digest length.
pub proof fn lemma_exporter_key_length<H: HashFunction>(ck: Seq<u8>)
    ensures
        exporter_keys::<H>(ck).0.len() == 32,
        exporter_keys::<H>(ck).1.len() == 32,
{
}

/// Encrypting does not change what `export` returns: only the chaining key
/// decides it, and encryption leaves that alone.
pub proof fn lemma_export_ignores_encrypt<C: Cipher, H: HashFunction>(
    s: SymmetricState<C, H>,
    s1: SymmetricState<C, H>,
    plaintext: Seq<u8>,
    ciphertext: Seq<u8>,
)
    requires
        encrypt_step(s, s1, plaintext, ciphertext),
    ensures
        exporter_keys::<H>(s1.chaining_key()) == exporter_keys::<H>(s.chaining_key()),
{
}

/// Decrypting, successfully or not, does not change what `export` returns.
pub proof fn lemma_export_ignores_decrypt<C: Cipher, H: HashFunction>(
    s: SymmetricState<C, H>,
    s1: SymmetricState<C, H>,
    data: Seq<u8>,
    capacity: nat,
    r: Result<usize, ()>,
    recovered: Seq<u8>,
)
    requires
        decrypt_step(s, s1, data, capacity, r, recovered),
    ensures
        exporter_keys::<H>(s1.chaining_key()) == exporter_keys::<H>(s.chaining_key()),
{
}

} // verus!

verus! {

/// What an operation does to the key-installed flag: `initialize` clears
/// it, `mix_key` sets it, every other operation keeps it.
pub enum FlagEffect {
    Clears,
    Sets,
    Keeps,
}

/// `s1` follows `s` by an operation with effect `e` on the flag.
pub open spec fn flag_effect_holds<C: Cipher, H: HashFunction>(
    e: FlagEffect,
    s: SymmetricState<C, H>,
    s1: SymmetricState<C, H>,
) -> bool {
    match e {
        FlagEffect::Clears => !s1.key_installed(),
        FlagEffect::Sets => s1.key_installed(),
        FlagEffect::Keeps => s1.key_installed() == s.key_installed(),
    }
}

/// The flag after operations with effects `effects`, from `start`: set
/// exactly where some `mix_key` came after the latest `initialize` (or, with
/// neither, where it was set at the start).
pub open spec fn keyed_after(effects: Seq<FlagEffect>, start: bool) -> bool
    decreases effects.len(),
{
    if effects.len() == 0 {
        start
    } else {
        match effects.last() {
            FlagEffect::Clears => false,
            FlagEffect::Sets => true,
            FlagEffect::Keeps => keyed_after(effects.drop_last(), start),
        }
    }
}

/// Over any run of operations `states[0] -> states[1] -> ...`, `has_key`
/// is true at the end exactly when `keyed_after` says so; in particular,
/// once a `mix_key` has come with no `initialize` after it, the flag stays
/// set. `mix_key_and_hash` keeps the flag and so does not set it.
pub proof fn lemma_key_flag_history<C: Cipher, H: HashFunction>(
    states: Seq<SymmetricState<C, H>>,
    effects: Seq<FlagEffect>,
)
    requires
        states.len() == effects.len() + 1,
        forall|i: int|
            0 <= i < effects.len() ==> flag_effect_holds(
                #[trigger] effects[i],
                states[i],
                states[i + 1],
            ),
    ensures
        states.last().key_installed() == keyed_after(effects, states[0].key_installed()),
        forall|j: int|
            0 <= j < effects.len() && #[trigger] effects[j] == FlagEffect::Sets && (forall|k: int|
                j < k < effects.len() ==> effects[k] != FlagEffect::Clears) ==> states.last().key_installed(),
    decreases effects.len(),
{
    if effects.len() > 0 {
        let n = effects.len() - 1;
        lemma_key_flag_history(states.drop_last(), effects.drop_last());
        assert(flag_effect_holds(effects[n as int], states[n as int], states[n + 1]));
        assert(effects.drop_last() =~= effects.subrange(0, n as int));
        assert forall|j: int|
            0 <= j < effects.len() && effects[j] == FlagEffect::Sets && (forall|k: int|
                j < k < effects.len() ==> effects[k] != FlagEffect::Clears) implies states.last().key_installed() by {
            if j < n {
                assert(effects.drop_last()[j] == FlagEffect::Sets);
                assert(effects[n as int] != FlagEffect::Clears);
            }
        }
    }
}

/// A mixing operation with its input.
pub enum Mix {
    Hash(Seq<u8>),
    Key(Seq<u8>),
    KeyAndHash(Seq<u8>),
}

/// `s1` is `s` after the mixing operation `m`.
pub open spec fn mix_step<C: Cipher, H: HashFunction>(
    m: Mix,
    s: SymmetricState<C, H>,
    s1: SymmetricState<C, H>,
) -> bool {
    match m {
        Mix::Hash(d) => mix_hash_step(s, s1, d),
        Mix::Key(d) => mix_key_step(s, s1, d),
        Mix::KeyAndHash(d) => mix_key_and_hash_step(s, s1, d),
    }
}

/// Two states initialized with the same handshake name and then driven
/// through the same mixing operations with the same inputs end in step, so
/// what one encrypts the other decrypts (`lemma_round_trip`). `a[0]` and
/// `b[0]` are the states before `initialize`, `a[1]` and `b[1]` after it,
/// and `a[i + 2]` follows `a[i + 1]` by `mixes[i]`.
pub proof fn lemma_same_history_in_step<C: Cipher, H: HashFunction>(
    a: Seq<SymmetricState<C, H>>,
    b: Seq<SymmetricState<C, H>>,
    name: Seq<u8>,
    mixes: Seq<Mix>,
)
    requires
        a.len() == mixes.len() + 2,
        b.len() == mixes.len() + 2,
        initialize_step(a[0], a[1], name),
        initialize_step(b[0], b[1], name),
        forall|i: int| 0 <= i < mixes.len() ==> mix_step(#[trigger] mixes[i], a[i + 1], a[i + 2]),
        forall|i: int| 0 <= i < mixes.len() ==> mix_step(#[trigger] mixes[i], b[i + 1], b[i + 2]),
    ensures
        in_step(a.last(), b.last()),
    decreases mixes.len(),
{
    if mixes.len() == 0 {
        lemma_initialize_deterministic(a[0], a[1], b[0], b[1], name);
    } else {
        let n = mixes.len() - 1;
        lemma_same_history_in_step(a.drop_last(), b.drop_last(), name, mixes.drop_last());
        assert(mix_step(mixes[n as int], a[n + 1], a[n + 2]));
        assert(mix_step(mixes[n as int], b[n + 1], b[n + 2]));
        match mixes[n as int] {
            Mix::Hash(d) => lemma_mix_hash_in_step(a[n + 1], a[n + 2], b[n + 1], b[n + 2], d),
            Mix::Key(d) => lemma_mix_key_in_step(a[n + 1], a[n + 2], b[n + 1], b[n + 2], d),
            Mix::KeyAndHash(d) => lemma_mix_key_and_hash_in_step(
                a[n + 1],
                a[n + 2],
                b[n + 1],
                b[n + 2],
                d,
            ),
        }
    }
}

} // verus!
