//! What entering, checking and setting a boot passphrase promises, and what the boot reports.
use crate::key_laws::{law_each_key_has_its_purpose, under};
use crate::keypad::{key_of, Key};
use crate::kinit::{
    accepted, action_of, devices_of, digit_of, keyed, outcome_of, provisioned, setup_keyed,
    submitted, verifier_of, verify_keyed, BootAction, BootState, EntryAction, LockAnswers,
    SetupStep, UnlockResult, VerifyOutcome,
};
use crate::kinit_plan::{
    passphrase_plan, planned_mount, preamble_meaning, BootPassphrasePlan, MountPlan,
    PreambleLoad, PreambleStatus,
};
use crate::security::{pbkdf2, PinKdf};
use vstd::prelude::*;

verus! {

// ---------------------------------------------------------------------------
// Keys
// ---------------------------------------------------------------------------

/// The place of a digit in the key matrix: one to nine in order, zero in the last row.
pub open spec fn place_of(digit: int) -> int {
    if digit == 0 {
        10
    } else {
        digit - 1
    }
}

/// Law: the key at the place of a digit enters that digit, in ASCII; star takes a digit back,
/// hash submits, and the other keys do nothing.
pub proof fn law_keys_enter_their_digit(digit: int)
    requires
        0 <= digit < 10,
    ensures
        digit_of(key_of(place_of(digit))) == Some((0x30 + digit) as u8),
        action_of(key_of(place_of(digit))) == EntryAction::Append((0x30 + digit) as u8),
        action_of(key_of(9)) == EntryAction::Backspace,
        action_of(key_of(11)) == EntryAction::Submit,
        action_of(Key::Rsk) == EntryAction::Ignore,
        action_of(Key::End) == EntryAction::Ignore,
{
    assert(digit == 0 || digit == 1 || digit == 2 || digit == 3 || digit == 4 || digit == 5 || digit
        == 6 || digit == 7 || digit == 8 || digit == 9);
}

/// What was entered after some keys.
pub open spec fn typed(keys: Seq<Key>) -> Seq<u8>
    decreases keys.len(),
{
    if keys.len() == 0 {
        Seq::empty()
    } else {
        keyed(typed(keys.drop_last()), keys.last())
    }
}

/// Law: digits come to stand in the order in which they are typed, the first sixty-four of
/// them.
pub proof fn law_digits_stand_as_they_are_typed(digits: Seq<u8>)
    requires
        forall|i: int| 0 <= i < digits.len() ==> #[trigger] digits[i] < 10,
    ensures
        ({
            let keys = Seq::new(digits.len(), |i: int| key_of(place_of(digits[i] as int)));
            let entry = typed(keys);
            &&& entry.len() == if digits.len() < 64 {
                digits.len() as int
            } else {
                64
            }
            &&& forall|i: int| 0 <= i < entry.len() ==> #[trigger] entry[i] == 0x30 + digits[i]
        }),
    decreases digits.len(),
{
    let keys = Seq::new(digits.len(), |i: int| key_of(place_of(digits[i] as int)));
    if digits.len() > 0 {
        let fewer = digits.drop_last();
        law_digits_stand_as_they_are_typed(fewer);
        assert(keys.drop_last() =~= Seq::new(
            fewer.len(),
            |i: int| key_of(place_of(fewer[i] as int)),
        ));
        law_keys_enter_their_digit(digits.last() as int);
    }
}

/// Law: star takes the last digit back and leaves the others; hash and the keys beside the
/// matrix leave the entry as it is.
pub proof fn law_star_takes_one_digit_back(entry: Seq<u8>, digit: u8)
    ensures
        keyed(entry.push(digit), Key::Star) == entry,
        keyed(Seq::empty(), Key::Star) == Seq::<u8>::empty(),
        keyed(entry, Key::Hash) == entry,
        keyed(entry, Key::Rsk) == entry,
        keyed(entry, Key::End) == entry,
{
    assert(entry.push(digit).drop_last() =~= entry);
}

// ---------------------------------------------------------------------------
// Setting and checking a passphrase
// ---------------------------------------------------------------------------

/// Law: the first entry has to have six digits, and the second has to be the same; while one
/// of them waits, nothing but a second entry is asked for.
pub proof fn law_a_passphrase_is_entered_twice(a: Seq<u8>, b: Seq<u8>)
    ensures
        a.len() < 6 ==> submitted(None, a) == (None::<Seq<u8>>, SetupStep::TooShort),
        a.len() >= 6 ==> submitted(None, a) == (Some(a), SetupStep::AskConfirm),
        submitted(Some(a), a) == (None::<Seq<u8>>, SetupStep::Provision),
        a != b ==> submitted(Some(a), b) == (None::<Seq<u8>>, SetupStep::StartOver),
{
}

/// Law: during setup only hash ends an entry. What was entered is wiped where another entry
/// follows, and kept where it is too short or is taken.
pub proof fn law_setup_goes_on_at_hash(entry: Seq<u8>, first: Option<Seq<u8>>, key: Key)
    ensures
        key != Key::Hash ==> setup_keyed(entry, first, key) == (
            keyed(entry, key),
            first,
            None::<SetupStep>,
        ),
        key == Key::Hash ==> ({
            let (kept, next, step) = setup_keyed(entry, first, key);
            &&& (next, step) == (submitted(first, entry).0, Some(submitted(first, entry).1))
            &&& step == Some(SetupStep::AskConfirm) || step == Some(SetupStep::StartOver)
                ==> kept.len() == 0
            &&& step == Some(SetupStep::TooShort) || step == Some(SetupStep::Provision) ==> kept
                == entry
        }),
{
}

/// Law: what is stored for a passphrase is the salt and what authenticates the checking
/// purpose under the stretched passphrase.
pub proof fn law_the_verifier_comes_from_the_stretched_passphrase(
    iterations: u32,
    passphrase: Seq<u8>,
    salt: Seq<u8>,
    stored: Seq<u8>,
)
    requires
        iterations > 0,
    ensures
        ({
            let kdf = PinKdf::Pbkdf2Sha256 { iterations };
            let primary = pbkdf2(passphrase, salt, iterations as int);
            let verifier = under(primary, "thumos-verify-v1"@);
            &&& provisioned(kdf, passphrase, salt) matches Some(p) && p.primary == primary
                && p.salt == salt && p.verifier == verifier
            &&& accepted(kdf, salt, stored, passphrase) is Some <==> stored == verifier
            &&& accepted(kdf, salt, verifier, passphrase) == Some(primary)
        }),
{
    let primary = pbkdf2(passphrase, salt, iterations as int);
    law_each_key_has_its_purpose(primary);
    assert(verifier_of(primary) == under(primary, "thumos-verify-v1"@));
}

/// Law: nothing is set or accepted where the device recorded no round of stretching.
pub proof fn law_nothing_is_accepted_without_stretching(
    passphrase: Seq<u8>,
    salt: Seq<u8>,
    stored: Seq<u8>,
)
    ensures
        provisioned(PinKdf::Pbkdf2Sha256 { iterations: 0 }, passphrase, salt) is None,
        accepted(PinKdf::Pbkdf2Sha256 { iterations: 0 }, salt, stored, passphrase) is None,
{
}

/// Law: each answer of the lock screen leads to its outcome: success unlocks where the key was
/// derived and is a fault where not, reaching the limit wipes, and all else asks again.
pub proof fn law_each_answer_has_its_outcome(has_primary: bool)
    ensures
        outcome_of(UnlockResult::Success, true) == VerifyOutcome::Unlocked,
        outcome_of(UnlockResult::Success, false) == VerifyOutcome::KeyFault,
        outcome_of(UnlockResult::WipeTrigger, has_primary) == VerifyOutcome::WipeAndHalt,
        outcome_of(UnlockResult::WrongPassphrase, has_primary) == VerifyOutcome::KeepPolling,
        outcome_of(UnlockResult::WrongPin, has_primary) == VerifyOutcome::KeepPolling,
        outcome_of(UnlockResult::Throttled, has_primary) == VerifyOutcome::KeepPolling,
        outcome_of(UnlockResult::DuressDetected, has_primary) == VerifyOutcome::KeepPolling,
{
}

/// Law: before hash a key only edits the entry. At hash the lock screen's answer counts: the
/// one it has whatever was entered, or else the one for a right or a wrong passphrase; the
/// entry is wiped exactly where the answer says so.
pub proof fn law_the_lock_screen_answers_at_hash(
    entry: Seq<u8>,
    key: Key,
    kdf: PinKdf,
    salt: Seq<u8>,
    verifier: Seq<u8>,
    lock: LockAnswers,
)
    ensures
        verify_keyed(entry, key, kdf, salt, None, lock) == (
            entry,
            Some(VerifyOutcome::NoVerifier),
        ),
        key != Key::Hash ==> verify_keyed(entry, key, kdf, salt, Some(verifier), lock) == (
            keyed(entry, key),
            None::<VerifyOutcome>,
        ),
        key == Key::Hash ==> ({
            let (kept, outcome) = verify_keyed(entry, key, kdf, salt, Some(verifier), lock);
            let right = accepted(kdf, salt, verifier, entry) is Some;
            let answer = if lock.unchecked is Some {
                lock.unchecked->0
            } else if right {
                lock.right
            } else {
                lock.wrong
            };
            &&& answer.erases ==> kept.len() == 0
            &&& !answer.erases ==> kept == entry
            &&& outcome == Some(outcome_of(answer.result, right && lock.unchecked is None))
        }),
{
}

// ---------------------------------------------------------------------------
// Plans
// ---------------------------------------------------------------------------

/// Law: a passphrase is asked for exactly on a provisioned device and set exactly on a blank
/// one, and either only where the image is trusted and display and keypad are there.
pub proof fn law_the_preamble_tells_what_to_ask(
    secure: bool,
    display: bool,
    input: bool,
    status: PreambleStatus,
)
    ensures
        ({
            let plan = passphrase_plan(secure, display, input, preamble_meaning(status));
            &&& plan == BootPassphrasePlan::Verify <==> secure && display && input && status
                == (PreambleStatus::Valid { has_verifier: true })
            &&& plan == BootPassphrasePlan::FirstBootSetup <==> secure && display && input && (status
                == (PreambleStatus::Valid { has_verifier: false }) || status
                == PreambleStatus::Absent)
        }),
{
}

/// Law: ciphertext is mounted exactly where the passphrase of a provisioned device was
/// accepted, plain storage exactly on a blank device, and either only from a trusted image with
/// its medium.
pub proof fn law_the_preamble_tells_what_to_mount(
    emmc: bool,
    secure: bool,
    status: PreambleStatus,
    passphrase: bool,
)
    ensures
        ({
            let plan = planned_mount(emmc, secure, preamble_meaning(status), passphrase);
            &&& plan == MountPlan::Encrypted <==> emmc && secure && passphrase && status
                == (PreambleStatus::Valid { has_verifier: true })
            &&& plan == MountPlan::Plain <==> emmc && secure && (status == (PreambleStatus::Valid {
                has_verifier: false,
            }) || status == PreambleStatus::Absent)
        }),
{
}

/// Law: a preamble that is there but damaged, or cannot be read, is told apart from a missing
/// one.
pub proof fn law_damage_is_no_blank_device(status: PreambleStatus)
    ensures
        preamble_meaning(status) == PreambleLoad::Corrupt <==> status == PreambleStatus::Corrupt,
        preamble_meaning(status) == PreambleLoad::ReadFailed <==> status
            == PreambleStatus::Unreadable,
{
}

// ---------------------------------------------------------------------------
// Reports
// ---------------------------------------------------------------------------

/// The seventeen parts of which a boot tells whether they came up.
pub open spec fn parts(s: BootState) -> Seq<bool> {
    core_parts(s) + other_parts(s) + radio_parts(s)
}

/// The parts without which nothing runs.
pub open spec fn core_parts(s: BootState) -> Seq<bool> {
    seq![
        s.core.mmu_ok,
        s.core.heap_ok,
        s.core.gic_ok,
        s.core.timer_ok,
        s.core.csprng_ok,
    ]
}

/// The parts of the board and of the trust in its image.
pub open spec fn other_parts(s: BootState) -> Seq<bool> {
    seq![
        s.board.emmc_ok,
        s.board.display_ok,
        s.board.input_ok,
        s.trust.secure_boot_ok,
        s.trust.passphrase_ok,
        s.trust.encryption_ok,
        s.trust.security_mode_ok,
    ]
}

/// The links to the outside.
pub open spec fn radio_parts(s: BootState) -> Seq<bool> {
    seq![
        s.radio.usb_ok,
        s.radio.modem_ok,
        s.radio.network_ok,
        s.radio.bluetooth_ok,
        s.radio.gps_ok,
    ]
}

/// How many of some flags hold.
pub open spec fn holding(flags: Seq<bool>) -> int
    decreases flags.len(),
{
    if flags.len() == 0 {
        0
    } else {
        holding(flags.drop_last()) + if flags.last() {
            1int
        } else {
            0
        }
    }
}

/// Law: the summary counts each part that came up once, and no other.
pub proof fn law_the_summary_counts_what_came_up(s: BootState)
    ensures
        parts(s).len() == 17,
        s.count_of_ok() == holding(parts(s)),
{
    lemma_core_parts(s);
    lemma_other_parts(s);
    lemma_radio_parts(s);
    lemma_holding_both(core_parts(s), other_parts(s));
    lemma_holding_both(core_parts(s) + other_parts(s), radio_parts(s));
}

proof fn lemma_holding_both(a: Seq<bool>, b: Seq<bool>)
    ensures
        holding(a + b) == holding(a) + holding(b),
    decreases b.len(),
{
    if b.len() == 0 {
        assert(a + b =~= a);
    } else {
        assert((a + b).drop_last() =~= a + b.drop_last());
        lemma_holding_both(a, b.drop_last());
    }
}

proof fn lemma_core_parts(s: BootState)
    ensures
        holding(core_parts(s)) == s.core.count_of_ok(),
{
    let p = core_parts(s);
    lemma_holding(p, 0);
    lemma_holding(p, 1);
    lemma_holding(p, 2);
    lemma_holding(p, 3);
    lemma_holding(p, 4);
    assert(p.take(0) =~= Seq::empty());
    assert(p.take(5) =~= p);
}

proof fn lemma_other_parts(s: BootState)
    ensures
        holding(other_parts(s)) == s.board.count_of_ok() + s.trust.count_of_ok(),
{
    let p = other_parts(s);
    lemma_holding(p, 0);
    lemma_holding(p, 1);
    lemma_holding(p, 2);
    lemma_holding(p, 3);
    lemma_holding(p, 4);
    lemma_holding(p, 5);
    lemma_holding(p, 6);
    assert(p.take(0) =~= Seq::empty());
    assert(p.take(7) =~= p);
}

proof fn lemma_radio_parts(s: BootState)
    ensures
        holding(radio_parts(s)) == s.radio.count_of_ok(),
{
    let p = radio_parts(s);
    lemma_holding(p, 0);
    lemma_holding(p, 1);
    lemma_holding(p, 2);
    lemma_holding(p, 3);
    lemma_holding(p, 4);
    assert(p.take(0) =~= Seq::empty());
    assert(p.take(5) =~= p);
}

proof fn lemma_holding(flags: Seq<bool>, n: int)
    requires
        0 <= n < flags.len(),
    ensures
        holding(flags.take(n + 1)) == holding(flags.take(n)) + if flags[n] {
            1int
        } else {
            0
        },
{
    assert(flags.take(n + 1).drop_last() =~= flags.take(n));
}

/// Law: the summary notes the generator, the display, the modem and the network exactly where
/// they are missing, and the loopback only beside a missing network.
pub proof fn law_the_summary_notes_what_is_missing(s: BootState)
    ensures
        ({
            let n = s.notes();
            &&& s.core.csprng_ok && s.board.display_ok && s.radio.modem_ok && s.radio.network_ok
                ==> n.len() == 0
            &&& !s.core.csprng_ok ==> n.len() > 0 && n[0]
                == " NOTE: CSPRNG unseeded, radio identity randomization disabled\r\n"@
            &&& !s.board.display_ok ==> n.contains(
                " NOTE: display unavailable, USB serial only\r\n"@,
            )
            &&& !s.radio.modem_ok ==> n.contains(" NOTE: modem unavailable, no phone functions\r\n"@)
            &&& !s.radio.network_ok ==> n.contains(
                " NOTE: network unavailable, no connectivity\r\n"@,
            )
            &&& !s.radio.network_ok && s.radio.network_loopback_smoke_ok ==> n.last()
                == " NOTE: DHCP/DNS smoke used loopback only; WiFi not wired\r\n"@
            &&& n.len() == holding(
                seq![
                    !s.core.csprng_ok,
                    !s.board.display_ok,
                    !s.radio.modem_ok,
                    !s.radio.network_ok,
                    !s.radio.network_ok && s.radio.network_loopback_smoke_ok,
                ],
            )
        }),
{
    let flags = seq![
        !s.core.csprng_ok,
        !s.board.display_ok,
        !s.radio.modem_ok,
        !s.radio.network_ok,
        !s.radio.network_ok && s.radio.network_loopback_smoke_ok,
    ];
    lemma_holding(flags, 0);
    lemma_holding(flags, 1);
    lemma_holding(flags, 2);
    lemma_holding(flags, 3);
    lemma_holding(flags, 4);
    assert(flags.take(0) =~= Seq::empty());
    assert(flags.take(5) =~= flags);
    let n = s.notes();
    let a: int = if s.core.csprng_ok {
        0
    } else {
        1
    };
    let b: int = a + if s.board.display_ok {
        0int
    } else {
        1
    };
    let c: int = b + if s.radio.modem_ok {
        0int
    } else {
        1
    };
    if !s.board.display_ok {
        assert(n[a] == " NOTE: display unavailable, USB serial only\r\n"@);
    }
    if !s.radio.modem_ok {
        assert(n[b] == " NOTE: modem unavailable, no phone functions\r\n"@);
    }
    if !s.radio.network_ok {
        assert(n[c] == " NOTE: network unavailable, no connectivity\r\n"@);
    }
}

/// Law: where a part comes up its own devices become active, under the names of the board, and
/// a step without a device activates none.
pub proof fn law_each_part_activates_its_devices(action: BootAction)
    ensures
        devices_of(BootAction::InitEmmc) == seq!["msdc0"@],
        devices_of(BootAction::InitDisplay) == seq!["gc9306-lcm"@, "disp-ovl0"@, "disp-rdma0"@],
        devices_of(BootAction::EnableKeypad) == seq!["mtk-kpd"@],
        devices_of(BootAction::InitUsb) == seq!["musb-hdrc"@],
        devices_of(BootAction::BootModem) == seq!["ccci-cldma"@, "ccci-ccif"@],
        devices_of(BootAction::InitBluetooth) == seq!["bt0"@],
        devices_of(BootAction::InitGps) == seq!["gps0"@],
        devices_of(action).len() > 0 ==> action is InitEmmc || action is InitDisplay || action is EnableKeypad
            || action is InitUsb || action is BootModem || action is InitBluetooth || action is InitGps,
{
}

/// Law: before the boot nothing is up, nothing is known of the device, no program runs, and
/// memory protection comes first.
pub proof fn law_nothing_is_up_before_the_boot(production_anchor: bool)
    ensures
        ({
            let s = BootState::fresh(production_anchor);
            &&& s.pending == BootAction::EnableMmu
            &&& s.production_anchor == production_anchor
            &&& forall|i: int| 0 <= i < 17 ==> !#[trigger] parts(s)[i]
            &&& s.trust.preamble == PreambleLoad::ReadFailed && !s.trust.provisioned_this_boot
            &&& !s.radio.network_loopback_smoke_ok
            &&& !s.user.userspace_image_ok && s.user.processes_spawned == 0
                && s.user.userspace_entries_missing == 0 && s.user.supervised_shell is None
                && !s.user.scheduling_enabled
        }),
{
}

} // verus!
