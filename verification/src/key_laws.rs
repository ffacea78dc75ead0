//! What key derivation and the keys of the phone promise.
use crate::key_manager::{keys_of, label_verify, KeyBytes, KeyModel};
use crate::security::{
    derived_under, hkdf, hkdf_block, hkdf_blocks, hmac, key_block, mixed, pbkdf2, pbkdf2_link,
    PinKdf, SleepTier,
};
use crate::sha256::sha256;
use vstd::prelude::*;
use vstd::utf8::*;

verus! {

// ---------------------------------------------------------------------------
// HMAC
// ---------------------------------------------------------------------------

/// Law: a key of a block's length is mixed with 0x36 in front of the message and with 0x5C in
/// front of that digest.
pub proof fn law_hmac_hashes_twice(key: Seq<u8>, message: Seq<u8>)
    requires
        key.len() == 64,
    ensures
        hmac(key, message) == sha256(
            Seq::new(64, |i: int| key[i] ^ 0x5Cu8) + sha256(
                Seq::new(64, |i: int| key[i] ^ 0x36u8) + message,
            ),
        ),
{
    reveal(hmac);
    assert(key_block(key) =~= key);
    assert(mixed(key, 0x5C) =~= Seq::new(64, |i: int| key[i] ^ 0x5Cu8));
    assert(mixed(key, 0x36) =~= Seq::new(64, |i: int| key[i] ^ 0x36u8));
}

/// Law: zeros behind a short key do not count, and a key of more than a block stands for its
/// digest.
pub proof fn law_keys_are_brought_to_a_block(key: Seq<u8>, zeros: nat, message: Seq<u8>)
    ensures
        key.len() + zeros <= 64 ==> hmac(key + Seq::new(zeros, |i: int| 0u8), message) == hmac(
            key,
            message,
        ),
        key.len() > 64 ==> hmac(key, message) == hmac(sha256(key), message),
{
    reveal(hmac);
    if key.len() + zeros <= 64 {
        assert(key_block(key + Seq::new(zeros, |i: int| 0u8)) =~= key_block(key));
    }
    if key.len() > 64 {
        lemma_digest(key);
        assert(key_block(key) =~= key_block(sha256(key)));
    }
}

proof fn lemma_digest(message: Seq<u8>)
    ensures
        sha256(message).len() == 32,
{
}

proof fn lemma_hmac_len(key: Seq<u8>, message: Seq<u8>)
    ensures
        hmac(key, message).len() == 32,
{
    reveal(hmac);
    lemma_digest(mixed(key_block(key), 0x5C) + sha256(mixed(key_block(key), 0x36) + message));
}

// ---------------------------------------------------------------------------
// HKDF
// ---------------------------------------------------------------------------

/// Law: the first block of a derived key authenticates the purpose and the byte one under the
/// extracted key; each further block authenticates the one before, the purpose and its number.
pub proof fn law_derived_keys_are_chained_blocks(
    ikm: Seq<u8>,
    salt: Seq<u8>,
    info: Seq<u8>,
    n: int,
)
    requires
        1 <= n < 255,
    ensures
        hkdf(ikm, salt, info, 0).len() == 0,
        hkdf(ikm, salt, info, 32) == hmac(hmac(salt, ikm), info + seq![1u8]),
        ({
            let prk = hmac(salt, ikm);
            let before = hkdf(ikm, salt, info, 32 * n);
            &&& before.len() == 32 * n
            &&& hkdf(ikm, salt, info, 32 * n + 32) == before + hmac(
                prk,
                before.skip(32 * n - 32) + info + seq![(n + 1) as u8],
            )
        }),
{
    let prk = hmac(salt, ikm);
    assert(hkdf_blocks(prk, info, 0) =~= Seq::empty());
    assert(hkdf_block(prk, info, 0) =~= Seq::empty());
    assert((0int + 31) / 32 == 0);
    assert((32int + 31) / 32 == 1);
    assert((32 * n + 31) / 32 == n);
    assert((32 * n + 32 + 31) / 32 == n + 1);
    assert(Seq::<u8>::empty() + info + seq![1u8] =~= info + seq![1u8]);
    lemma_hmac_len(prk, info + seq![1u8]);
    assert(hkdf_block(prk, info, 1) == hmac(prk, hkdf_block(prk, info, 0) + info + seq![1u8]));
    assert(hkdf_blocks(prk, info, 1) =~= hkdf_block(prk, info, 1));
    assert(hkdf(ikm, salt, info, 32) =~= hkdf_blocks(prk, info, 1));
    lemma_blocks(prk, info, n);
    lemma_blocks(prk, info, n + 1);
    assert(hkdf(ikm, salt, info, 32 * n) =~= hkdf_blocks(prk, info, n));
    assert(hkdf(ikm, salt, info, 32 * n + 32) =~= hkdf_blocks(prk, info, n + 1));
}

proof fn lemma_blocks(prk: Seq<u8>, info: Seq<u8>, n: int)
    requires
        1 <= n,
    ensures
        hkdf_blocks(prk, info, n).len() == 32 * n,
        hkdf_blocks(prk, info, n).skip(32 * n - 32) == hkdf_block(prk, info, n),
    decreases n,
{
    lemma_hmac_len(prk, hkdf_block(prk, info, n - 1) + info + seq![n as u8]);
    if n > 1 {
        lemma_blocks(prk, info, n - 1);
    } else {
        assert(hkdf_blocks(prk, info, 0) =~= Seq::empty());
    }
    assert(hkdf_blocks(prk, info, n).skip(32 * n - 32) =~= hkdf_block(prk, info, n));
}

/// Law: a derived key has the length that was asked for, and a shorter one is its beginning.
pub proof fn law_shorter_keys_are_beginnings(
    ikm: Seq<u8>,
    salt: Seq<u8>,
    info: Seq<u8>,
    short: int,
    long: int,
)
    requires
        0 <= short <= long <= 8160,
    ensures
        hkdf(ikm, salt, info, long).len() == long,
        hkdf(ikm, salt, info, short) == hkdf(ikm, salt, info, long).take(short),
{
    let prk = hmac(salt, ikm);
    let a = (short + 31) / 32;
    let b = (long + 31) / 32;
    lemma_beginning(prk, info, a, b);
    assert(32 * a >= short && 32 * b >= long);
    assert(hkdf(ikm, salt, info, short) =~= hkdf(ikm, salt, info, long).take(short));
}

proof fn lemma_beginning(prk: Seq<u8>, info: Seq<u8>, a: int, b: int)
    requires
        0 <= a <= b,
    ensures
        hkdf_blocks(prk, info, a).len() == 32 * a,
        hkdf_blocks(prk, info, b).len() == 32 * b,
        hkdf_blocks(prk, info, b).take(32 * a) == hkdf_blocks(prk, info, a),
    decreases b - a,
{
    if a > 0 {
        lemma_blocks(prk, info, a);
    }
    if b > 0 {
        lemma_blocks(prk, info, b);
    }
    if a < b {
        lemma_beginning(prk, info, a, b - 1);
        assert(hkdf_blocks(prk, info, b).take(32 * a) =~= hkdf_blocks(prk, info, b - 1).take(
            32 * a,
        ));
    } else {
        assert(hkdf_blocks(prk, info, b).take(32 * a) =~= hkdf_blocks(prk, info, a));
    }
}

// ---------------------------------------------------------------------------
// PBKDF2
// ---------------------------------------------------------------------------

/// Law: the first link authenticates the salt and the number of the block under the passphrase,
/// each further link authenticates the one before, and the key is the exclusive or of as many
/// links as were asked for.
pub proof fn law_stretching_chains_links(passphrase: Seq<u8>, salt: Seq<u8>, n: int, i: int)
    requires
        1 <= n,
        0 <= i < 32,
    ensures
        pbkdf2(passphrase, salt, 1) == hmac(passphrase, salt + seq![0u8, 0u8, 0u8, 1u8]),
        pbkdf2_link(passphrase, salt, 1) == hmac(passphrase, salt + seq![0u8, 0u8, 0u8, 1u8]),
        pbkdf2_link(passphrase, salt, n + 1) == hmac(
            passphrase,
            pbkdf2_link(passphrase, salt, n),
        ),
        pbkdf2(passphrase, salt, n + 1).len() == 32,
        pbkdf2(passphrase, salt, n + 1)[i] == pbkdf2(passphrase, salt, n)[i] ^ pbkdf2_link(
            passphrase,
            salt,
            n + 1,
        )[i],
{
}

/// Law: a passphrase is stretched as often as the device recorded, and never without a round.
pub proof fn law_a_passphrase_is_stretched_as_recorded(
    iterations: u32,
    passphrase: Seq<u8>,
    salt: Seq<u8>,
)
    ensures
        iterations > 0 ==> derived_under(
            PinKdf::Pbkdf2Sha256 { iterations },
            passphrase,
            salt,
        ) == Some(pbkdf2(passphrase, salt, iterations as int)),
        derived_under(PinKdf::Pbkdf2Sha256 { iterations }, passphrase, salt) is None <==> iterations
            == 0,
{
}

// ---------------------------------------------------------------------------
// The keys of the phone
// ---------------------------------------------------------------------------

/// What authenticates a purpose under the primary key: the single block of a derived key.
pub open spec fn under(primary: Seq<u8>, purpose: Seq<char>) -> Seq<u8> {
    hmac(hmac(Seq::empty(), primary), encode_utf8(purpose) + seq![1u8])
}

/// Law: each key is derived from the primary key for its purpose; the data key is twice as
/// long, and goes on from its first half.
pub proof fn law_each_key_has_its_purpose(primary: Seq<u8>)
    ensures
        keys_of(primary).audit == under(primary, "thumos-audit-v1"@),
        keys_of(primary).csprng == under(primary, "thumos-csprng-v1"@),
        keys_of(primary).session == under(primary, "thumos-session-v1"@),
        keys_of(primary).data.len() == 64,
        keys_of(primary).data.take(32) == under(primary, "thumos-data-v1"@),
        keys_of(primary).data.skip(32) == hmac(
            hmac(Seq::empty(), primary),
            under(primary, "thumos-data-v1"@) + encode_utf8("thumos-data-v1"@) + seq![2u8],
        ),
        hkdf(primary, Seq::empty(), label_verify(), 32) == under(primary, "thumos-verify-v1"@),
{
    let none = Seq::<u8>::empty();
    let data = encode_utf8("thumos-data-v1"@);
    law_derived_keys_are_chained_blocks(primary, none, encode_utf8("thumos-audit-v1"@), 1);
    law_derived_keys_are_chained_blocks(primary, none, encode_utf8("thumos-csprng-v1"@), 1);
    law_derived_keys_are_chained_blocks(primary, none, encode_utf8("thumos-session-v1"@), 1);
    law_derived_keys_are_chained_blocks(primary, none, encode_utf8("thumos-verify-v1"@), 1);
    law_derived_keys_are_chained_blocks(primary, none, data, 1);
    let first = hkdf(primary, none, data, 32);
    assert(first.skip(0) =~= first);
    let second = hmac(hmac(none, primary), first + data + seq![2u8]);
    lemma_hmac_len(hmac(none, primary), first + data + seq![2u8]);
    assert(keys_of(primary).data == first + second);
    assert(keys_of(primary).data.take(32) =~= first);
    assert(keys_of(primary).data.skip(32) =~= second);
}

/// Law: deriving the keys wakes the phone with them; a long sleep forgets every key, a short
/// one none, and a fresh phone has none.
pub proof fn law_keys_live_until_a_long_sleep(m: KeyModel, primary: Seq<u8>)
    ensures
        KeyModel::locked().keys is None,
        KeyModel::locked().tier == SleepTier::Long,
        KeyModel::unlocked(primary).keys == Some(keys_of(primary)),
        KeyModel::unlocked(primary).tier == SleepTier::Short,
        m.slept(SleepTier::Long).keys == None::<KeyBytes>,
        m.slept(SleepTier::Long).tier == SleepTier::Long,
        m.slept(SleepTier::Short).keys == m.keys,
        m.slept(SleepTier::Short).tier == SleepTier::Short,
{
}

} // verus!
