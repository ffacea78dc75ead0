//! Key derivation: HMAC, HKDF and PBKDF2 over SHA-256.
use crate::sha256::{
    law_block_can_be_taken_in_first, sha256, sha256_digest, HashState, DIGEST_SIZE,
};
use vstd::prelude::*;

verus! {

/// Bytes of a key.
pub const KEY_SIZE: usize = 32;

/// Bytes of a partition encryption key (two AES-256 keys).
pub const XTS_KEY_SIZE: usize = 64;

/// The most bytes that one HKDF expansion gives.
pub const HKDF_MAX_OUTPUT: usize = 8160;

/// Security subsystem errors.
#[derive(Debug, Clone, Copy, PartialEq, Eq, Structural)]
pub enum SecurityError {
    /// A key could not be derived.
    KeyDerivationFailed,
}

/// How deeply the device sleeps.
#[derive(Debug, Clone, Copy, PartialEq, Eq, Structural)]
pub enum SleepTier {
    /// Keys stay loaded.
    Short,
    /// Keys are gone; the passphrase has to be entered again.
    Long,
}

impl SleepTier {
    /// The name of the tier.
    pub open spec fn name(self) -> Seq<char> {
        match self {
            SleepTier::Short => "Short"@,
            SleepTier::Long => "Long"@,
        }
    }

    /// The name of the tier.
    pub fn as_str(&self) -> (r: &'static str)
        ensures
            r@ == self.name(),
    {
        match self {
            SleepTier::Short => "Short",
            SleepTier::Long => "Long",
        }
    }
}

/// How a passphrase is turned into a key, as recorded on the device.
#[derive(Debug, Clone, Copy, PartialEq, Eq, Structural)]
pub enum PinKdf {
    /// PBKDF2-HMAC-SHA256.
    Pbkdf2Sha256 { iterations: u32 },
}

/// The derivation of devices that were provisioned first.
pub fn v1_kdf() -> (r: PinKdf)
    ensures
        r == (PinKdf::Pbkdf2Sha256 { iterations: 100_000 }),
{
    PinKdf::Pbkdf2Sha256 { iterations: 100_000 }
}

// ---------------------------------------------------------------------------
// HMAC
// ---------------------------------------------------------------------------

/// A key as it fills one block: hashed where it is too long, then padded.
pub open spec fn key_block(key: Seq<u8>) -> Seq<u8> {
    let short = if key.len() > 64 {
        sha256(key)
    } else {
        key
    };
    Seq::new(
        64,
        |i: int|
            if i < short.len() {
                short[i]
            } else {
                0u8
            },
    )
}

/// A block with a byte mixed into each of its bytes.
pub open spec fn mixed(block: Seq<u8>, with: u8) -> Seq<u8> {
    Seq::new(64, |i: int| block[i] ^ with)
}

/// HMAC-SHA256.
#[verifier::opaque]
pub open spec fn hmac(key: Seq<u8>, message: Seq<u8>) -> Seq<u8> {
    sha256(
        mixed(key_block(key), 0x5C) + sha256(mixed(key_block(key), 0x36) + message),
    )
}

/// A key that is ready for use: the hash states behind the inner and the outer key
/// block.
pub struct HmacKey {
    inner: HashState,
    outer: HashState,
    key: Ghost<Seq<u8>>,
}

impl View for HmacKey {
    type V = Seq<u8>;

    /// The key.
    closed spec fn view(&self) -> Seq<u8> {
        self.key@
    }
}

impl HmacKey {
    /// The states are those of the key.
    pub closed spec fn wf(&self) -> bool {
        &&& self.inner == HashState::initial().compressed(mixed(key_block(self.key@), 0x36))
        &&& self.outer == HashState::initial().compressed(mixed(key_block(self.key@), 0x5C))
    }

    /// Prepare a key.
    pub fn new(key: &[u8]) -> (r: Self)
        ensures
            r.wf(),
            r@ == key@,
    {
        let mut block: [u8; 64] = [0u8; 64];
        if key.len() > 64 {
            let short = sha256_digest(key);
            let mut i: usize = 0;
            while i < DIGEST_SIZE
                invariant
                    i <= DIGEST_SIZE,
                    forall|j: int| 0 <= j < i ==> #[trigger] block@[j] == short@[j],
                    forall|j: int| i <= j < 64 ==> #[trigger] block@[j] == 0,
                decreases DIGEST_SIZE - i,
            {
                block[i] = short[i];
                i += 1;
            }
        } else {
            let mut i: usize = 0;
            while i < key.len()
                invariant
                    i <= key@.len() <= 64,
                    forall|j: int| 0 <= j < i ==> #[trigger] block@[j] == key@[j],
                    forall|j: int| i <= j < 64 ==> #[trigger] block@[j] == 0,
                decreases key@.len() - i,
            {
                block[i] = key[i];
                i += 1;
            }
        }
        assert(block@ =~= key_block(key@));
        let mut inner: [u8; 64] = [0u8; 64];
        let mut outer: [u8; 64] = [0u8; 64];
        let mut i: usize = 0;
        while i < 64
            invariant
                i <= 64,
                forall|j: int| 0 <= j < i ==> #[trigger] inner@[j] == block@[j] ^ 0x36,
                forall|j: int| 0 <= j < i ==> #[trigger] outer@[j] == block@[j] ^ 0x5C,
            decreases 64 - i,
        {
            inner[i] = block[i] ^ 0x36;
            outer[i] = block[i] ^ 0x5C;
            i += 1;
        }
        assert(inner@.subrange(0, 64) =~= mixed(key_block(key@), 0x36));
        assert(outer@.subrange(0, 64) =~= mixed(key_block(key@), 0x5C));
        HmacKey {
            inner: HashState::new().compress(inner.as_slice(), 0),
            outer: HashState::new().compress(outer.as_slice(), 0),
            key: Ghost(key@),
        }
    }

    /// The HMAC of a message under the key.
    pub fn authenticate(&self, message: &[u8]) -> (r: [u8; DIGEST_SIZE])
        requires
            self.wf(),
        ensures
            r@ == hmac(self@, message@),
    {
        let digest = self.inner.finish(64, message);
        proof {
            reveal(hmac);
            law_block_can_be_taken_in_first(mixed(key_block(self@), 0x36), message@);
            law_block_can_be_taken_in_first(mixed(key_block(self@), 0x5C), digest@);
        }
        self.outer.finish(64, digest.as_slice())
    }
}

/// HMAC-SHA256.
pub fn hmac_sha256(key: &[u8], message: &[u8]) -> (r: [u8; DIGEST_SIZE])
    ensures
        r@ == hmac(key@, message@),
{
    HmacKey::new(key).authenticate(message)
}

// ---------------------------------------------------------------------------
// HKDF
// ---------------------------------------------------------------------------

/// The output block with a number of an HKDF expansion.
pub open spec fn hkdf_block(prk: Seq<u8>, info: Seq<u8>, n: int) -> Seq<u8>
    decreases n,
{
    if n <= 0 {
        Seq::empty()
    } else {
        hmac(prk, hkdf_block(prk, info, n - 1) + info + seq![n as u8])
    }
}

/// The first `n` output blocks of an HKDF expansion.
pub open spec fn hkdf_blocks(prk: Seq<u8>, info: Seq<u8>, n: int) -> Seq<u8>
    decreases n,
{
    if n <= 0 {
        Seq::empty()
    } else {
        hkdf_blocks(prk, info, n - 1) + hkdf_block(prk, info, n)
    }
}

/// HKDF-SHA256 with an output of some bytes.
pub open spec fn hkdf(ikm: Seq<u8>, salt: Seq<u8>, info: Seq<u8>, len: int) -> Seq<u8> {
    hkdf_blocks(hmac(salt, ikm), info, (len + 31) / 32).take(len)
}

proof fn lemma_digest_len(message: Seq<u8>)
    ensures
        sha256(message).len() == 32,
{
}

proof fn lemma_hkdf_len(prk: Seq<u8>, info: Seq<u8>, n: int)
    requires
        0 <= n,
    ensures
        hkdf_blocks(prk, info, n).len() == 32 * n,
    decreases n,
{
    reveal(hmac);
    if n > 0 {
        lemma_hkdf_len(prk, info, n - 1);
        let m = hkdf_block(prk, info, n - 1) + info + seq![n as u8];
        let k = key_block(prk);
        lemma_digest_len(mixed(k, 0x5C) + sha256(mixed(k, 0x36) + m));
    }
}

/// HKDF-SHA256: derive `len` bytes for a purpose. Fails where more than
/// [`HKDF_MAX_OUTPUT`] bytes are asked for.
pub fn hkdf_sha256(ikm: &[u8], salt: &[u8], info: &[u8], len: usize) -> (r: Result<
    Vec<u8>,
    SecurityError,
>)
    ensures
        match r {
            Ok(v) => len <= HKDF_MAX_OUTPUT && v@ == hkdf(ikm@, salt@, info@, len as int)
                && v@.len() == len,
            Err(e) => len > HKDF_MAX_OUTPUT && e == SecurityError::KeyDerivationFailed,
        },
{
    if len > HKDF_MAX_OUTPUT {
        return Err(SecurityError::KeyDerivationFailed);
    }
    let prk = hmac_sha256(salt, ikm);
    let key = HmacKey::new(prk.as_slice());
    let count: usize = (len + 31) / 32;
    let mut out: Vec<u8> = Vec::new();
    let mut last: Vec<u8> = Vec::new();
    let mut n: usize = 0;
    while n < count
        invariant
            n <= count <= 255,
            key.wf(),
            key@ == prk@,
            last@ == hkdf_block(prk@, info@, n as int),
            out@ == hkdf_blocks(prk@, info@, n as int),
        decreases count - n,
    {
        let mut message: Vec<u8> = Vec::new();
        message.extend_from_slice(last.as_slice());
        message.extend_from_slice(info);
        message.push((n + 1) as u8);
        assert(message@ =~= last@ + info@ + seq![(n + 1) as u8]);
        let block = key.authenticate(message.as_slice());
        last = vstd::slice::slice_to_vec(block.as_slice());
        out.extend_from_slice(last.as_slice());
        n += 1;
        assert(out@ =~= hkdf_blocks(prk@, info@, n as int));
    }
    proof {
        lemma_hkdf_len(prk@, info@, count as int);
    }
    out.truncate(len);
    assert(out@ =~= hkdf(ikm@, salt@, info@, len as int));
    Ok(out)
}

// ---------------------------------------------------------------------------
// PBKDF2
// ---------------------------------------------------------------------------

/// The link with a number in the PBKDF2 chain for the first output block.
pub open spec fn pbkdf2_link(passphrase: Seq<u8>, salt: Seq<u8>, n: int) -> Seq<u8>
    decreases n,
{
    if n <= 1 {
        hmac(passphrase, salt + seq![0u8, 0u8, 0u8, 1u8])
    } else {
        hmac(passphrase, pbkdf2_link(passphrase, salt, n - 1))
    }
}

/// Two byte strings, combined bit by bit.
pub open spec fn xored(a: Seq<u8>, b: Seq<u8>) -> Seq<u8> {
    Seq::new(32, |i: int| a[i] ^ b[i])
}

/// PBKDF2-HMAC-SHA256 with an output of one digest: all links of the chain,
/// combined bit by bit.
pub open spec fn pbkdf2(passphrase: Seq<u8>, salt: Seq<u8>, iterations: int) -> Seq<u8>
    decreases iterations,
{
    if iterations <= 1 {
        pbkdf2_link(passphrase, salt, 1)
    } else {
        xored(
            pbkdf2(passphrase, salt, iterations - 1),
            pbkdf2_link(passphrase, salt, iterations),
        )
    }
}

/// The first link of the chain.
fn first_link(key: &HmacKey, salt: &[u8]) -> (r: [u8; DIGEST_SIZE])
    requires
        key.wf(),
    ensures
        r@ == pbkdf2_link(key@, salt@, 1),
{
    let mut first: Vec<u8> = Vec::new();
    first.extend_from_slice(salt);
    first.push(0);
    first.push(0);
    first.push(0);
    first.push(1);
    assert(first@ =~= salt@ + seq![0u8, 0u8, 0u8, 1u8]);
    key.authenticate(first.as_slice())
}

/// Two digests, combined bit by bit.
fn xor_digests(a: [u8; DIGEST_SIZE], b: [u8; DIGEST_SIZE]) -> (r: [u8; DIGEST_SIZE])
    ensures
        r@ == xored(a@, b@),
{
    let mut out: [u8; DIGEST_SIZE] = [0u8; DIGEST_SIZE];
    let mut i: usize = 0;
    while i < DIGEST_SIZE
        invariant
            i <= DIGEST_SIZE,
            forall|j: int| 0 <= j < i ==> #[trigger] out@[j] == a@[j] ^ b@[j],
        decreases DIGEST_SIZE - i,
    {
        out[i] = a[i] ^ b[i];
        i += 1;
    }
    assert(out@ =~= xored(a@, b@));
    out
}

/// PBKDF2-HMAC-SHA256: derive a key from a passphrase. Fails where no iteration is
/// asked for.
pub fn pbkdf2_sha256(passphrase: &[u8], salt: &[u8], iterations: u32) -> (r: Result<
    [u8; KEY_SIZE],
    SecurityError,
>)
    ensures
        match r {
            Ok(key) => iterations > 0 && key@ == pbkdf2(passphrase@, salt@, iterations as int),
            Err(e) => iterations == 0 && e == SecurityError::KeyDerivationFailed,
        },
{
    if iterations == 0 {
        return Err(SecurityError::KeyDerivationFailed);
    }
    let key = HmacKey::new(passphrase);
    let mut link: [u8; DIGEST_SIZE] = first_link(&key, salt);
    let mut out: [u8; KEY_SIZE] = link;
    let mut n: u32 = 1;
    while n < iterations
        invariant
            1 <= n <= iterations,
            key.wf(),
            key@ == passphrase@,
            link@ == pbkdf2_link(passphrase@, salt@, n as int),
            out@ == pbkdf2(passphrase@, salt@, n as int),
        decreases iterations - n,
    {
        let next = key.authenticate(link.as_slice());
        out = xor_digests(out, next);
        link = next;
        n += 1;
    }
    Ok(out)
}

/// The key that a recorded derivation gives for a passphrase and a salt.
pub open spec fn derived_under(kdf: PinKdf, passphrase: Seq<u8>, salt: Seq<u8>) -> Option<
    Seq<u8>,
> {
    match kdf {
        PinKdf::Pbkdf2Sha256 { iterations } => if iterations == 0 {
            None
        } else {
            Some(pbkdf2(passphrase, salt, iterations as int))
        },
    }
}

/// Derive a key under the recorded parameters.
pub fn derive_under(kdf: PinKdf, passphrase: &[u8], salt: &[u8]) -> (r: Result<
    [u8; KEY_SIZE],
    SecurityError,
>)
    ensures
        match r {
            Ok(key) => derived_under(kdf, passphrase@, salt@) == Some(key@),
            Err(e) => derived_under(kdf, passphrase@, salt@) is None && e
                == SecurityError::KeyDerivationFailed,
        },
{
    match kdf {
        PinKdf::Pbkdf2Sha256 { iterations } => pbkdf2_sha256(passphrase, salt, iterations),
    }
}

} // verus!
