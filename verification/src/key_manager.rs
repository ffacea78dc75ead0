//! Key hierarchy management.
//!
//! The lifecycle of the keys:
//! 1. Passphrase to primary key (PBKDF2-HMAC-SHA256, with the salt and the
//!    parameters recorded on the device)
//! 2. Primary key to per-purpose sub-keys (HKDF-SHA256)
//! 3. Zeroization on long sleep or panic
//!
//! The primary key is never stored. Key material is overwritten with zeros when a
//! [`SecureKey`] goes out of use.
use crate::security::{
    derive_under, derived_under, hkdf, hkdf_sha256, PinKdf, SecurityError, SleepTier, KEY_SIZE,
    XTS_KEY_SIZE,
};
use crate::text::{ascii, decimal, push_decimal};
use vstd::prelude::*;
use vstd::utf8::*;

verus! {

broadcast use vstd::string::group_string_axioms;

/// HKDF info label for the data (partition encryption) key.
pub open spec fn label_data() -> Seq<u8> {
    encode_utf8("thumos-data-v1"@)
}

/// HKDF info label for the audit log HMAC key.
pub open spec fn label_audit() -> Seq<u8> {
    encode_utf8("thumos-audit-v1"@)
}

/// HKDF info label for the stable CSPRNG reseed input.
pub open spec fn label_csprng() -> Seq<u8> {
    encode_utf8("thumos-csprng-v1"@)
}

/// HKDF info label for the stable session-key wrapper input.
pub open spec fn label_session() -> Seq<u8> {
    encode_utf8("thumos-session-v1"@)
}

/// HKDF info label for the boot passphrase verifier.
pub open spec fn label_verify() -> Seq<u8> {
    encode_utf8("thumos-verify-v1"@)
}

// ---------------------------------------------------------------------------
// SecureKey
// ---------------------------------------------------------------------------

/// Whether all bytes are zero.
pub open spec fn all_zero(bytes: Seq<u8>) -> bool {
    forall|i: int| 0 <= i < bytes.len() ==> #[trigger] bytes[i] == 0
}

/// A fixed-size cryptographic key that is zeroized on drop.
pub struct SecureKey<const N: usize>([u8; N]);

impl<const N: usize> View for SecureKey<N> {
    type V = Seq<u8>;

    closed spec fn view(&self) -> Seq<u8> {
        self.0@
    }
}

impl<const N: usize> SecureKey<N> {
    /// Create a new `SecureKey` from raw bytes.
    pub fn new(bytes: [u8; N]) -> (r: Self)
        ensures
            r@ == bytes@,
    {
        SecureKey(bytes)
    }

    /// Borrow the key bytes.
    pub fn as_bytes(&self) -> (r: &[u8; N])
        ensures
            r@ == self@,
    {
        &self.0
    }

    /// Check whether the key is all zeros (zeroized or never set).
    pub fn is_zero(&self) -> (r: bool)
        ensures
            r == all_zero(self@),
    {
        let mut i: usize = 0;
        while i < N
            invariant
                i <= N,
                forall|j: int| 0 <= j < i ==> #[trigger] self.0@[j] == 0,
            decreases N - i,
        {
            if self.0[i] != 0 {
                assert(self@[i as int] != 0);
                return false;
            }
            i += 1;
        }
        true
    }

    /// Explicitly zeroize the key material.
    pub fn zeroize(&mut self)
        ensures
            final(self)@.len() == N,
            all_zero(final(self)@),
        opens_invariants none
        no_unwind
    {
        volatile_zero(&mut self.0);
    }

    /// The kind of the key. Key material is never shown.
    pub fn to_string(&self) -> (r: String)
        ensures
            r@ == "SecureKey<"@ + ascii(decimal(N as nat)) + ">"@,
    {
        let mut out = "SecureKey<".to_owned();
        push_decimal(&mut out, N as u64);
        out.append(">");
        out
    }
}

impl<const N: usize> Drop for SecureKey<N> {
    fn drop(&mut self)
        opens_invariants none
        no_unwind
    {
        self.zeroize();
    }
}

/// Overwrite a key buffer with zeros.
///
/// The zeros are there for whatever reads the buffer later. They are plain stores: where
/// nothing reads the buffer again, the compiler may leave them out.
pub fn volatile_zero<const N: usize>(buf: &mut [u8; N])
    ensures
        all_zero(final(buf)@),
    opens_invariants none
    no_unwind
{
    let mut i: usize = 0;
    while i < N
        invariant
            i <= N,
            buf@.len() == N,
            forall|j: int| 0 <= j < i ==> #[trigger] buf@[j] == 0,
        decreases N - i,
    {
        buf[i] = 0;
        i += 1;
    }
}

/// [`volatile_zero`] for a buffer whose length is not known at compile time, with plain
/// stores too.
pub fn volatile_zero_slice(buf: &mut [u8])
    ensures
        final(buf)@.len() == old(buf)@.len(),
        all_zero(final(buf)@),
{
    let n: usize = buf.len();
    let mut i: usize = 0;
    while i < n
        invariant
            i <= n,
            n == buf@.len(),
            n == old(buf)@.len(),
            forall|j: int| 0 <= j < i ==> #[trigger] buf@[j] == 0,
        decreases n - i,
    {
        buf[i] = 0;
        i += 1;
    }
}

/// The first bytes of derived output as a buffer of fixed size.
fn fixed<const N: usize>(bytes: &Vec<u8>) -> (r: [u8; N])
    requires
        bytes@.len() == N,
    ensures
        r@ == bytes@,
{
    let mut out: [u8; N] = [0u8; N];
    let mut i: usize = 0;
    while i < N
        invariant
            i <= N,
            bytes@.len() == N,
            forall|j: int| 0 <= j < i ==> #[trigger] out@[j] == bytes@[j],
        decreases N - i,
    {
        out[i] = bytes[i];
        i += 1;
    }
    assert(out@ =~= bytes@);
    out
}

// ---------------------------------------------------------------------------
// KeySet
// ---------------------------------------------------------------------------

/// The set of per-purpose keys derived from a primary key.
pub struct KeySet {
    /// Partition encryption key (AES-256-XTS, 64 bytes).
    pub data_key: SecureKey<XTS_KEY_SIZE>,
    /// Audit log HMAC key.
    pub audit_key: SecureKey<KEY_SIZE>,
    /// Stable CSPRNG reseed input; unsafe as a standalone reset seed.
    pub csprng_key: SecureKey<KEY_SIZE>,
    /// Stable session-key wrapper input; not itself an ephemeral session key.
    pub session_key: SecureKey<KEY_SIZE>,
}

/// The bytes of the per-purpose keys.
#[verifier::ext_equal]
pub ghost struct KeyBytes {
    pub data: Seq<u8>,
    pub audit: Seq<u8>,
    pub csprng: Seq<u8>,
    pub session: Seq<u8>,
}

impl View for KeySet {
    type V = KeyBytes;

    open spec fn view(&self) -> KeyBytes {
        KeyBytes {
            data: self.data_key@,
            audit: self.audit_key@,
            csprng: self.csprng_key@,
            session: self.session_key@,
        }
    }
}

impl KeySet {
    /// What the set is for. Key material is never shown.
    pub fn to_string(&self) -> (r: String)
        ensures
            r@ == "KeySet(data, audit, csprng, session)"@,
    {
        "KeySet(data, audit, csprng, session)".to_owned()
    }
}

/// The per-purpose keys of a primary key.
pub open spec fn keys_of(primary: Seq<u8>) -> KeyBytes {
    KeyBytes {
        data: hkdf(primary, Seq::empty(), label_data(), XTS_KEY_SIZE as int),
        audit: hkdf(primary, Seq::empty(), label_audit(), KEY_SIZE as int),
        csprng: hkdf(primary, Seq::empty(), label_csprng(), KEY_SIZE as int),
        session: hkdf(primary, Seq::empty(), label_session(), KEY_SIZE as int),
    }
}

// ---------------------------------------------------------------------------
// KeyManager
// ---------------------------------------------------------------------------

/// Manages the key hierarchy and its sleep-tier lifecycle.
///
/// Holds the derived keys. The primary key itself is never stored.
pub struct KeyManager {
    /// The derived keys, where they are loaded.
    keys: Option<KeySet>,
    /// Current sleep tier.
    sleep_tier: SleepTier,
}

/// What a key manager holds.
#[verifier::ext_equal]
pub ghost struct KeyModel {
    pub keys: Option<KeyBytes>,
    pub tier: SleepTier,
}

impl View for KeyManager {
    type V = KeyModel;

    closed spec fn view(&self) -> KeyModel {
        KeyModel {
            keys: match self.keys {
                Some(k) => Some(k@),
                None => None,
            },
            tier: self.sleep_tier,
        }
    }
}

impl KeyModel {
    /// Without keys, in long sleep.
    pub open spec fn locked() -> KeyModel {
        KeyModel { keys: None, tier: SleepTier::Long }
    }

    /// With the keys of a primary key, in short sleep at most.
    pub open spec fn unlocked(primary: Seq<u8>) -> KeyModel {
        KeyModel { keys: Some(keys_of(primary)), tier: SleepTier::Short }
    }

    /// After the sleep tier was set.
    pub open spec fn slept(self, tier: SleepTier) -> KeyModel {
        match tier {
            SleepTier::Long => KeyModel::locked(),
            SleepTier::Short => KeyModel { tier: SleepTier::Short, ..self },
        }
    }

    /// Long sleep holds no keys.
    pub open spec fn ok(self) -> bool {
        self.tier == SleepTier::Long ==> self.keys is None
    }
}

impl KeyManager {
    /// Create a new `KeyManager` with no keys loaded.
    pub fn new() -> (r: Self)
        ensures
            r@ == KeyModel::locked(),
    {
        KeyManager { keys: None, sleep_tier: SleepTier::Long }
    }

    /// Derive a primary key from a passphrase.
    ///
    /// `salt` is the per-device random salt and `kdf` the derivation recorded on
    /// the device. Fails where the recorded parameters give no key; there is never
    /// a silently cheaper one.
    pub fn derive_from_passphrase(passphrase: &[u8], salt: &[u8], kdf: PinKdf) -> (r: Result<
        SecureKey<KEY_SIZE>,
        SecurityError,
    >)
        ensures
            match r {
                Ok(key) => derived_under(kdf, passphrase@, salt@) == Some(key@),
                Err(e) => derived_under(kdf, passphrase@, salt@) is None && e
                    == SecurityError::KeyDerivationFailed,
            },
    {
        match derive_under(kdf, passphrase, salt) {
            Ok(mut key_bytes) => {
                let key = SecureKey::new(key_bytes);
                volatile_zero(&mut key_bytes);
                Ok(key)
            },
            Err(_) => Err(SecurityError::KeyDerivationFailed),
        }
    }

    /// Derive one sub-key from a primary key.
    fn derive_key<const N: usize>(primary: &SecureKey<KEY_SIZE>, label: &str) -> (r: SecureKey<N>)
        requires
            N <= 8160,
        ensures
            r@ == hkdf(primary@, Seq::empty(), encode_utf8(label@), N as int),
    {
        let none: [u8; 0] = [];
        assert(none@ =~= Seq::empty());
        match hkdf_sha256(
            primary.as_bytes().as_slice(),
            none.as_slice(),
            label.as_bytes(),
            N,
        ) {
            Ok(mut bytes) => {
                let mut buf: [u8; N] = fixed(&bytes);
                let key = SecureKey::new(buf);
                volatile_zero(&mut buf);
                volatile_zero_slice(bytes.as_mut_slice());
                key
            },
            Err(_) => {
                assert(false);
                SecureKey::new([0u8; N])
            },
        }
    }

    /// Derive per-purpose keys from a primary key via HKDF-SHA256, store them and
    /// leave long sleep.
    ///
    /// The sizes that are derived never exceed what HKDF gives, so this succeeds.
    pub fn derive_partition_keys(&mut self, primary: &SecureKey<KEY_SIZE>) -> (r: Result<
        (),
        SecurityError,
    >)
        ensures
            r is Ok,
            final(self)@ == KeyModel::unlocked(primary@),
    {
        let data_key: SecureKey<XTS_KEY_SIZE> = KeyManager::derive_key(primary, "thumos-data-v1");
        let audit_key: SecureKey<KEY_SIZE> = KeyManager::derive_key(primary, "thumos-audit-v1");
        let csprng_key: SecureKey<KEY_SIZE> = KeyManager::derive_key(primary, "thumos-csprng-v1");
        let session_key: SecureKey<KEY_SIZE> = KeyManager::derive_key(primary, "thumos-session-v1");
        self.keys = Some(KeySet { data_key, audit_key, csprng_key, session_key });
        self.sleep_tier = SleepTier::Short;
        Ok(())
    }

    /// Derive the boot passphrase verifier from a primary key.
    ///
    /// The verifier is stored in plaintext, and the boot gate compares against it
    /// before any mount. It is public, so it is a plain array.
    pub fn derive_boot_verifier(primary: &SecureKey<KEY_SIZE>) -> (r: Result<
        [u8; KEY_SIZE],
        SecurityError,
    >)
        ensures
            r matches Ok(v) && v@ == hkdf(
                primary@,
                Seq::empty(),
                label_verify(),
                KEY_SIZE as int,
            ),
    {
        let key: SecureKey<KEY_SIZE> = KeyManager::derive_key(primary, "thumos-verify-v1");
        Ok(*key.as_bytes())
    }

    /// Zeroize all keys and transition to long-sleep tier. The passphrase has to be
    /// entered again to derive them.
    pub fn zeroize_all(&mut self)
        ensures
            final(self)@ == KeyModel::locked(),
    {
        self.keys = None;
        self.sleep_tier = SleepTier::Long;
    }

    /// Check whether keys are currently loaded.
    pub fn has_keys(&self) -> (r: bool)
        ensures
            r == (self@.keys is Some),
    {
        self.keys.is_some()
    }

    /// Borrow the data (partition encryption) key, if loaded.
    pub fn data_key(&self) -> (r: Option<&SecureKey<XTS_KEY_SIZE>>)
        ensures
            match r {
                Some(k) => self@.keys matches Some(b) && k@ == b.data,
                None => self@.keys is None,
            },
    {
        match &self.keys {
            Some(k) => Some(&k.data_key),
            None => None,
        }
    }

    /// Borrow the audit log HMAC key, if loaded.
    pub fn audit_key(&self) -> (r: Option<&SecureKey<KEY_SIZE>>)
        ensures
            match r {
                Some(k) => self@.keys matches Some(b) && k@ == b.audit,
                None => self@.keys is None,
            },
    {
        match &self.keys {
            Some(k) => Some(&k.audit_key),
            None => None,
        }
    }

    /// Borrow the CSPRNG seed key, if loaded.
    pub fn csprng_key(&self) -> (r: Option<&SecureKey<KEY_SIZE>>)
        ensures
            match r {
                Some(k) => self@.keys matches Some(b) && k@ == b.csprng,
                None => self@.keys is None,
            },
    {
        match &self.keys {
            Some(k) => Some(&k.csprng_key),
            None => None,
        }
    }

    /// Borrow the session key, if loaded.
    pub fn session_key(&self) -> (r: Option<&SecureKey<KEY_SIZE>>)
        ensures
            match r {
                Some(k) => self@.keys matches Some(b) && k@ == b.session,
                None => self@.keys is None,
            },
    {
        match &self.keys {
            Some(k) => Some(&k.session_key),
            None => None,
        }
    }

    /// Current sleep tier.
    pub fn sleep_tier(&self) -> (r: SleepTier)
        ensures
            r == self@.tier,
    {
        self.sleep_tier
    }

    /// Set the sleep tier. If transitioning to `Long`, zeroizes all keys.
    pub fn set_sleep_tier(&mut self, tier: SleepTier)
        ensures
            final(self)@ == old(self)@.slept(tier),
    {
        match tier {
            SleepTier::Long => {
                self.zeroize_all();
            },
            SleepTier::Short => {},
        }
        self.sleep_tier = tier;
    }

    /// The state of the manager. Key material is never shown.
    pub fn to_string(&self) -> (r: String)
        ensures
            r@ == "KeyManager(keys="@ + (if self@.keys is Some {
                "loaded"@
            } else {
                "none"@
            }) + ", tier="@ + self@.tier.name() + ")"@,
    {
        let mut out = "KeyManager(keys=".to_owned();
        if self.has_keys() {
            out.append("loaded");
        } else {
            out.append("none");
        }
        out.append(", tier=");
        out.append(self.sleep_tier.as_str());
        out.append(")");
        out
    }
}

impl Default for KeyManager {
    fn default() -> (r: Self)
        ensures
            r@ == KeyModel::locked(),
    {
        KeyManager::new()
    }
}

/// Law: each purpose has a label of its own, so no two derivations from one primary
/// key have the same input.
pub proof fn law_labels_are_distinct()
    ensures
        label_data() != label_audit(),
        label_data() != label_csprng(),
        label_data() != label_session(),
        label_data() != label_verify(),
        label_audit() != label_csprng(),
        label_audit() != label_session(),
        label_audit() != label_verify(),
        label_csprng() != label_session(),
        label_csprng() != label_verify(),
        label_session() != label_verify(),
{
    reveal_strlit("thumos-data-v1");
    reveal_strlit("thumos-audit-v1");
    reveal_strlit("thumos-csprng-v1");
    reveal_strlit("thumos-session-v1");
    reveal_strlit("thumos-verify-v1");
    let (d, a, c, s, v) = (
        "thumos-data-v1"@,
        "thumos-audit-v1"@,
        "thumos-csprng-v1"@,
        "thumos-session-v1"@,
        "thumos-verify-v1"@,
    );
    assert(d[7] == 'd' && a[7] == 'a' && c[7] == 'c' && s[7] == 's' && v[7] == 'v');
    encode_utf8_decode_utf8(d);
    encode_utf8_decode_utf8(a);
    encode_utf8_decode_utf8(c);
    encode_utf8_decode_utf8(s);
    encode_utf8_decode_utf8(v);
}

/// Law: long sleep never holds keys: every operation keeps this.
pub proof fn law_long_sleep_holds_no_keys(m: KeyModel, primary: Seq<u8>, tier: SleepTier)
    requires
        m.ok(),
    ensures
        KeyModel::locked().ok(),
        KeyModel::unlocked(primary).ok(),
        m.slept(tier).ok(),
        m.slept(SleepTier::Long).keys is None,
{
}

/// Law: short sleep keeps the keys as they are, and the same primary key always
/// unlocks the same keys.
pub proof fn law_short_sleep_keeps_keys(m: KeyModel, primary: Seq<u8>)
    ensures
        m.slept(SleepTier::Short).keys == m.keys,
        m.slept(SleepTier::Long) == KeyModel::locked(),
        KeyModel::unlocked(primary).keys == Some(keys_of(primary)),
{
}

} // verus!
