//! Key hierarchy.
use thumos::key_manager::{volatile_zero, volatile_zero_slice, KeyManager, SecureKey};
use thumos::security::{
    hkdf_sha256, hmac_sha256, pbkdf2_sha256, v1_kdf, PinKdf, SecurityError, SleepTier,
    HKDF_MAX_OUTPUT, KEY_SIZE,
};
use thumos::sha256::sha256_digest;

const TEST_SALT: &[u8] = b"thumos-unit-test-salt";

fn derive_test_primary(passphrase: &[u8]) -> SecureKey<KEY_SIZE> {
    let key_bytes = pbkdf2_sha256(passphrase, TEST_SALT, 1).expect("pbkdf2 derivation failed in test");
    SecureKey::new(key_bytes)
}

#[test]
fn derive_from_passphrase_is_deterministic() {
    let key1 = derive_test_primary(b"test passphrase");
    let key2 = derive_test_primary(b"test passphrase");
    assert_eq!(
        key1.as_bytes(),
        key2.as_bytes(),
        "same passphrase must produce the same primary key"
    );
}

#[test]
fn different_passphrases_produce_different_keys() {
    let key1 = derive_test_primary(b"passphrase alpha");
    let key2 = derive_test_primary(b"passphrase bravo");
    assert_ne!(
        key1.as_bytes(),
        key2.as_bytes(),
        "different passphrases must produce different keys"
    );
}

#[test]
fn derive_partition_keys_produces_distinct_keys() {
    let primary = derive_test_primary(b"partition key test");
    let mut km = KeyManager::new();
    km.derive_partition_keys(&primary)
        .expect("derive_partition_keys failed");

    assert!(km.has_keys(), "keys must be loaded after derivation");

    let data = km.data_key().expect("data key missing");
    let audit = km.audit_key().expect("audit key missing");
    let csprng = km.csprng_key().expect("csprng key missing");
    let session = km.session_key().expect("session key missing");

    assert_ne!(
        audit.as_bytes(),
        csprng.as_bytes(),
        "audit and csprng keys must differ"
    );
    assert_ne!(
        audit.as_bytes(),
        session.as_bytes(),
        "audit and session keys must differ"
    );
    assert_ne!(
        csprng.as_bytes(),
        session.as_bytes(),
        "csprng and session keys must differ"
    );

    assert!(!data.is_zero(), "data key must not be all zeros");
    assert!(!audit.is_zero(), "audit key must not be all zeros");
}

#[test]
fn zeroize_all_clears_keys() {
    let primary = derive_test_primary(b"zeroize test");
    let mut km = KeyManager::new();
    km.derive_partition_keys(&primary)
        .expect("derive_partition_keys failed");

    assert!(km.has_keys());

    km.zeroize_all();

    assert!(!km.has_keys(), "keys must be cleared after zeroize_all");
    assert!(km.data_key().is_none(), "data key must be None");
    assert!(km.audit_key().is_none(), "audit key must be None");
    assert!(km.csprng_key().is_none(), "csprng key must be None");
    assert!(km.session_key().is_none(), "session key must be None");
    assert_eq!(km.sleep_tier(), SleepTier::Long);
}

#[test]
fn volatile_zero_clears_buffer() {
    let mut buf = [0xAAu8; KEY_SIZE];
    assert!(buf.iter().any(|&b| b != 0));
    volatile_zero(&mut buf);
    assert!(
        buf.iter().all(|&b| b == 0),
        "volatile_zero must clear every byte"
    );
}

#[test]
fn secure_key_zeros_on_drop() {
    let mut key = SecureKey::new([0xAA; KEY_SIZE]);
    assert!(!key.is_zero(), "key must not be zero before zeroize");
    key.zeroize();
    assert!(key.is_zero(), "key must be zero after explicit zeroize");
}

#[test]
fn long_sleep_zeroizes_keys() {
    let primary = derive_test_primary(b"sleep tier test");
    let mut km = KeyManager::new();
    km.derive_partition_keys(&primary)
        .expect("derive_partition_keys failed");

    assert!(km.has_keys());
    assert_eq!(km.sleep_tier(), SleepTier::Short);

    km.set_sleep_tier(SleepTier::Long);

    assert!(!km.has_keys(), "long sleep must zeroize keys");
    assert_eq!(km.sleep_tier(), SleepTier::Long);
}

#[test]
fn new_key_manager_has_no_keys() {
    let km = KeyManager::new();
    assert!(!km.has_keys());
    assert_eq!(km.sleep_tier(), SleepTier::Long);
}

#[test]
fn key_manager_display() {
    let km = KeyManager::new();
    let s = km.to_string();
    assert!(s.contains("none"), "display must show no keys");
    assert!(s.contains("Long"), "display must show long sleep tier");
}

#[test]
fn derive_partition_keys_deterministic() {
    let primary = derive_test_primary(b"deterministic test");

    let mut km1 = KeyManager::new();
    km1.derive_partition_keys(&primary)
        .expect("derive_partition_keys failed");

    let primary2 = derive_test_primary(b"deterministic test");
    let mut km2 = KeyManager::new();
    km2.derive_partition_keys(&primary2)
        .expect("derive_partition_keys failed");

    assert_eq!(
        km1.data_key().expect("data key missing").as_bytes(),
        km2.data_key().expect("data key missing").as_bytes(),
        "same primary key must produce same data key"
    );
    assert_eq!(
        km1.audit_key().expect("audit key missing").as_bytes(),
        km2.audit_key().expect("audit key missing").as_bytes(),
        "same primary key must produce same audit key"
    );
}

#[test]
fn derive_from_passphrase_production_entry_point() {
    let key1 = KeyManager::derive_from_passphrase(
        b"production entry point test",
        TEST_SALT,
        v1_kdf(),
    )
    .expect("derive_from_passphrase must succeed");
    assert!(!key1.is_zero(), "derived primary key must not be all zeros");

    let key2 = KeyManager::derive_from_passphrase(
        b"production entry point test",
        TEST_SALT,
        v1_kdf(),
    )
    .expect("derive_from_passphrase must succeed");
    assert_eq!(
        key1.as_bytes(),
        key2.as_bytes(),
        "the production entry point must be deterministic for the same passphrase + salt"
    );
}

#[test]
fn derive_from_passphrase_differs_per_device_salt() {
    let salt_a: &[u8] = b"device-a-persisted-salt";
    let salt_b: &[u8] = b"device-b-persisted-salt";
    let key_a = KeyManager::derive_from_passphrase(
        b"the same user passphrase",
        salt_a,
        v1_kdf(),
    )
    .expect("derive with salt A");
    let key_b = KeyManager::derive_from_passphrase(
        b"the same user passphrase",
        salt_b,
        v1_kdf(),
    )
    .expect("derive with salt B");
    assert_ne!(
        key_a.as_bytes(),
        key_b.as_bytes(),
        "same passphrase + different device salts must derive different primary keys"
    );
}

#[test]
fn derive_from_passphrase_differs_per_kdf_parameters() {
    let low = PinKdf::Pbkdf2Sha256 { iterations: 1 };
    let high = PinKdf::Pbkdf2Sha256 { iterations: 2 };
    let key_low =
        KeyManager::derive_from_passphrase(b"same passphrase, same salt", TEST_SALT, low)
            .expect("derive under the low-iteration record");
    let key_high =
        KeyManager::derive_from_passphrase(b"same passphrase, same salt", TEST_SALT, high)
            .expect("derive under the high-iteration record");
    assert_ne!(
        key_low.as_bytes(),
        key_high.as_bytes(),
        "same passphrase + same salt + different recorded KDF parameters must derive different keys"
    );
}

#[test]
fn boot_verifier_is_deterministic_per_primary() {
    let primary = derive_test_primary(b"verifier determinism");
    let v1 = KeyManager::derive_boot_verifier(&primary).expect("derive verifier");
    let v2 = KeyManager::derive_boot_verifier(&primary).expect("derive verifier");
    assert_eq!(v1, v2, "same primary must yield the same verifier");
    assert_ne!(v1, [0u8; KEY_SIZE], "verifier must not be zero");
}

#[test]
fn boot_verifier_tracks_the_passphrase() {
    let primary_a = derive_test_primary(b"correct horse");
    let primary_b = derive_test_primary(b"battery staple");
    let v_a = KeyManager::derive_boot_verifier(&primary_a).expect("verifier a");
    let v_b = KeyManager::derive_boot_verifier(&primary_b).expect("verifier b");
    assert_ne!(
        v_a, v_b,
        "different passphrases must verify differently (the boot gate's whole point)"
    );
}

#[test]
fn boot_verifier_is_label_separated_from_partition_keys() {
    let primary = derive_test_primary(b"label separation");
    let verifier = KeyManager::derive_boot_verifier(&primary).expect("verifier");
    let mut km = KeyManager::new();
    km.derive_partition_keys(&primary).expect("partition keys");
    let data = km.data_key().expect("data key").as_bytes();
    assert_ne!(
        &verifier[..],
        &data[..KEY_SIZE],
        "HKDF label separation: verifier must differ from the data key"
    );
    assert_ne!(
        &verifier[..],
        &primary.as_bytes()[..],
        "the verifier is a derived value, never the primary itself"
    );
}

#[test]
fn set_sleep_tier_short_preserves_keys() {
    let primary = derive_test_primary(b"short tier preserves keys");
    let mut km = KeyManager::new();
    km.derive_partition_keys(&primary)
        .expect("derive_partition_keys failed");
    assert!(km.has_keys());

    let data_before = *km.data_key().expect("data key missing").as_bytes();

    km.set_sleep_tier(SleepTier::Short);

    assert!(
        km.has_keys(),
        "transitioning to Short must not zeroize keys"
    );
    assert_eq!(km.sleep_tier(), SleepTier::Short);
    assert_eq!(
        km.data_key().expect("data key missing").as_bytes(),
        &data_before,
        "data key must be unchanged by a non-Long sleep-tier transition"
    );
}

fn hex(bytes: &[u8]) -> String {
    let mut out = String::new();
    for b in bytes {
        out.push_str(&format!("{b:02x}"));
    }
    out
}

#[test]
fn sha256_known_digests() {
    assert_eq!(
        hex(&sha256_digest(b"")),
        "e3b0c44298fc1c149afbf4c8996fb92427ae41e4649b934ca495991b7852b855"
    );
    assert_eq!(
        hex(&sha256_digest(b"abc")),
        "ba7816bf8f01cfea414140de5dae2223b00361a396177a9cb410ff61f20015ad"
    );
    assert_eq!(
        hex(&sha256_digest(
            b"abcdbcdecdefdefgefghfghighijhijkijkljklmklmnlmnomnopnopq"
        )),
        "248d6a61d20638b8e5c026930c3e6039a33ce45964ff2167f6ecedd419db06c1"
    );
}

#[test]
fn sha256_of_a_long_message() {
    let message = vec![b'a'; 1000];
    assert_eq!(
        hex(&sha256_digest(&message)),
        "41edece42d63e8d9bf515a9ba6932e1c20cbc9f5a5d134645adb5db1b9737ea3"
    );
}

#[test]
fn hmac_known_values() {
    assert_eq!(
        hex(&hmac_sha256(&[0x0b; 20], b"Hi There")),
        "b0344c61d8db38535ca8afceaf0bf12b881dc200c9833da726e9376c2e32cff7"
    );
    assert_eq!(
        hex(&hmac_sha256(b"Jefe", b"what do ya want for nothing?")),
        "5bdcc146bf60754e6a042426089575c75a003f089d2739839dec58b964ec3843"
    );
    assert_eq!(
        hex(&hmac_sha256(
            &[0xaa; 131],
            b"Test Using Larger Than Block-Size Key - Hash Key First"
        )),
        "60e431591ee0b67f0d8a26aacbf5b77f8e0bc6213728c5140546040f0ee37f54"
    );
}

#[test]
fn hkdf_known_values() {
    let okm = hkdf_sha256(
        &[0x0b; 22],
        &[0, 1, 2, 3, 4, 5, 6, 7, 8, 9, 10, 11, 12],
        &[0xf0, 0xf1, 0xf2, 0xf3, 0xf4, 0xf5, 0xf6, 0xf7, 0xf8, 0xf9],
        42,
    )
    .expect("within the limit");
    assert_eq!(
        hex(&okm),
        "3cb25f25faacd57a90434f64d0362f2a2d2d0a90cf1a5a4c5db02d56ecc4c5bf34007208d5b887185865"
    );
    let okm = hkdf_sha256(&[0x0b; 22], &[], &[], 42).expect("within the limit");
    assert_eq!(
        hex(&okm),
        "8da4e775a563c18f715f802a063c5a31b8a11f5c5ee1879ec3454e5f3c738d2d9d201395faa4b61a96c8"
    );
}

#[test]
fn hkdf_refuses_more_than_its_limit() {
    assert_eq!(
        hkdf_sha256(b"ikm", b"", b"info", HKDF_MAX_OUTPUT + 1),
        Err(SecurityError::KeyDerivationFailed)
    );
    assert_eq!(
        hkdf_sha256(b"ikm", b"", b"info", HKDF_MAX_OUTPUT).map(|v| v.len()),
        Ok(HKDF_MAX_OUTPUT)
    );
    assert_eq!(hkdf_sha256(b"ikm", b"", b"info", 0), Ok(Vec::new()));
}

#[test]
fn pbkdf2_known_values() {
    assert_eq!(
        hex(&pbkdf2_sha256(b"password", b"salt", 1).expect("one iteration")),
        "120fb6cffcf8b32c43e7225256c4f837a86548c92ccc35480805987cb70be17b"
    );
    assert_eq!(
        hex(&pbkdf2_sha256(b"password", b"salt", 2).expect("two iterations")),
        "ae4d0c95af6b46d32d0adff928f06dd02a303f8ef3c251dfd6e2d85a95474c43"
    );
    assert_eq!(
        hex(&pbkdf2_sha256(b"password", b"salt", 4096).expect("many iterations")),
        "c5e478d59288c841aa530db6845c4c8d962893a001ce4e11a4963873aa98134a"
    );
}

#[test]
fn a_derivation_without_iterations_fails() {
    assert_eq!(
        pbkdf2_sha256(b"password", b"salt", 0),
        Err(SecurityError::KeyDerivationFailed)
    );
    let kdf = PinKdf::Pbkdf2Sha256 { iterations: 0 };
    assert!(matches!(
        KeyManager::derive_from_passphrase(b"password", b"salt", kdf),
        Err(SecurityError::KeyDerivationFailed)
    ));
}

#[test]
fn keys_and_managers_never_show_key_material() {
    let key: SecureKey<KEY_SIZE> = SecureKey::new([0xAA; KEY_SIZE]);
    assert_eq!(key.to_string(), "SecureKey<32>");
    let mut km = KeyManager::default();
    assert_eq!(km.to_string(), "KeyManager(keys=none, tier=Long)");
    km.derive_partition_keys(&key).expect("keys");
    assert_eq!(km.to_string(), "KeyManager(keys=loaded, tier=Short)");
}

#[test]
fn volatile_zero_slice_clears_any_length() {
    let mut buf = vec![7u8; 13];
    volatile_zero_slice(&mut buf);
    assert_eq!(buf, vec![0u8; 13]);
    let mut none: Vec<u8> = Vec::new();
    volatile_zero_slice(&mut none);
    assert!(none.is_empty());
}
