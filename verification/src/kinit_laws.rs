//! What holds of every boot.
use crate::key_manager::{keys_of, KeyModel};
use crate::keypad::Key;
use crate::kinit::{
    accepted, action_of, is_entry, keyed, lemma_board_stage, lemma_services_stage,
    lemma_trust_stage, provisioned, rank, setup_keyed, stage, submitted, verifier_of,
    verify_keyed, BootAction, BootEvent, BootState, EntryAction, ImageVerdict, LockAnswers,
    SetupStep, Stage, StorageKind, TrustStatus, UnlockResult, VerifyOutcome, MAX_PASSPHRASE_LEN,
};
use crate::kinit_plan::{preamble_meaning, PreambleLoad, MIN_BOOT_PASSPHRASE_LEN};
use crate::security::{derived_under, PinKdf};
use vstd::prelude::*;

verus! {

/// Whether an action touches the userdata partition as a file system.
pub open spec fn opens_storage(action: BootAction) -> bool {
    action is MountStorage || action is FormatStorage || action is RemountStorage
}

/// The kind of storage that an action touches.
pub open spec fn storage_of(action: BootAction) -> Option<StorageKind> {
    match action {
        BootAction::MountStorage(k) => Some(k),
        BootAction::FormatStorage(k) => Some(k),
        BootAction::RemountStorage(k) => Some(k),
        _ => None,
    }
}

/// Whether an action brings up a link to the outside.
pub open spec fn brings_up_link(action: BootAction) -> bool {
    action == BootAction::InitUsb || action == BootAction::BootModem || action
        == BootAction::ProbeWifi || action == BootAction::SmokeNetwork || action
        == BootAction::InitBluetooth || action == BootAction::InitGps
}

/// Trust is held only on good grounds, and what depends on it comes only with it.
pub open spec fn trust_ok(s: BootState) -> bool {
    &&& s.trust.secure_boot_ok ==> s.production_anchor
    &&& s.trust.passphrase_ok ==> s.trust.secure_boot_ok && s.trust.preamble
        == PreambleLoad::Provisioned
    &&& s.trust.encryption_ok ==> s.trust.passphrase_ok
    &&& s.trust.provisioned_this_boot ==> s.trust.passphrase_ok
    &&& rank(s.pending) >= 19 ==> !s.trust.secure_boot_ok
    &&& rank(s.pending) >= 17 ==> !s.trust.passphrase_ok
}

/// What is pending may be done.
pub open spec fn pending_ok(s: BootState) -> bool {
    &&& opens_storage(s.pending) ==> s.board.emmc_ok && s.trust.secure_boot_ok
    &&& storage_of(s.pending) == Some(StorageKind::Encrypted) ==> s.trust.passphrase_ok
    &&& storage_of(s.pending) == Some(StorageKind::Plain) ==> s.trust.preamble
        == PreambleLoad::Unprovisioned
    &&& s.pending == BootAction::FormatStorage(StorageKind::Encrypted)
        ==> s.trust.provisioned_this_boot
    &&& s.pending == BootAction::VerifyPassphrase ==> s.trust.secure_boot_ok && s.board.display_ok
        && s.board.input_ok && s.trust.preamble == PreambleLoad::Provisioned
    &&& s.pending == BootAction::SetUpPassphrase ==> s.trust.secure_boot_ok && s.board.display_ok
        && s.board.input_ok && s.trust.preamble == PreambleLoad::Unprovisioned
    &&& s.pending == (BootAction::InitVfs { persistent: true }) ==> s.board.emmc_ok
        && s.trust.secure_boot_ok
    &&& brings_up_link(s.pending) ==> s.trust.security_mode_ok
    &&& s.pending == BootAction::SpawnInit ==> s.trust.secure_boot_ok
        || s.user.userspace_image_ok
    &&& s.pending == BootAction::SpawnShell ==> s.trust.secure_boot_ok
        || s.user.userspace_image_ok
}

/// Scheduling is enabled exactly where the boot has come to its end.
pub open spec fn scheduling_ok(s: BootState) -> bool {
    s.user.scheduling_enabled <==> s.pending is EnterServiceLoop
}

/// The invariant of the boot.
pub open spec fn boot_ok(s: BootState) -> bool {
    trust_ok(s) && pending_ok(s) && scheduling_ok(s)
}

/// Law: the boot starts within its invariant.
pub proof fn law_boot_starts_well(production_anchor: bool)
    ensures
        boot_ok(BootState::fresh(production_anchor)),
{
}

/// Law: whatever comes of an action, the boot stays within its invariant. In
/// particular: the userdata partition is touched only with a medium and an
/// established trust root, ciphertext only with its keys, and plaintext only on a
/// device that was never provisioned; ciphertext is formatted only where this boot
/// provisioned it; no passphrase is asked for without trust, display and keypad; the
/// radio policy is in place before any radio comes up; programs are started only
/// from a verified medium or a verified image.
pub proof fn law_boot_stays_well(s: BootState, event: BootEvent)
    requires
        boot_ok(s),
    ensures
        boot_ok(s.advanced(event)),
{
    lemma_trust(s, event);
    lemma_pending(s, event);
    lemma_scheduling(s, event);
}

proof fn lemma_trust(s: BootState, event: BootEvent)
    requires
        boot_ok(s),
    ensures
        trust_ok(s.advanced(event)),
{
    match stage(s.pending) {
        Stage::Board => {
            lemma_board_stage(s, event);
        },
        Stage::Trust => {
            lemma_trust_stage(s, event);
        },
        Stage::Services => {
            lemma_services_stage(s, event);
        },
        Stage::Over => {},
    }
}

/// What the mount is planned for may be done.
proof fn lemma_mount_ok(s: BootState)
    requires
        trust_ok(s.at_mount()),
    ensures
        pending_ok(s.at_mount()),
{
    reveal(BootState::at_mount);
}

/// What the passphrase gate is planned for may be done.
proof fn lemma_passphrase_ok(s: BootState)
    requires
        trust_ok(s.at_passphrase()),
    ensures
        pending_ok(s.at_passphrase()),
{
    reveal(BootState::at_passphrase);
    reveal(BootState::at_mount);
}

proof fn lemma_trust_pending(s: BootState, event: BootEvent)
    requires
        boot_ok(s),
        stage(s.pending) == Stage::Trust,
        trust_ok(s.advanced(event)),
    ensures
        pending_ok(s.advanced(event)),
{
    reveal(BootState::trust_advanced);
    let trusted = TrustStatus { secure_boot_ok: s.production_anchor, ..s.trust };
    let unlocked = TrustStatus { passphrase_ok: true, ..s.trust };
    let provisioned = TrustStatus {
        passphrase_ok: true,
        preamble: PreambleLoad::Provisioned,
        provisioned_this_boot: true,
        ..s.trust
    };
    let r = s.advanced(event);
    match s.pending {
        BootAction::VerifyBootImage => {
            let t = BootState { trust: trusted, ..s };
            if r == t.at_passphrase() {
                lemma_passphrase_ok(t);
            } else if r == s.at_passphrase() {
                lemma_passphrase_ok(s);
            }
        },
        BootAction::ProbePreamble => {
            let preamble = match event {
                BootEvent::Preamble(status) => preamble_meaning(status),
                _ => PreambleLoad::ReadFailed,
            };
            lemma_passphrase_ok(BootState { trust: TrustStatus { preamble, ..s.trust }, ..s });
        },
        BootAction::VerifyPassphrase => {
            let t = BootState { trust: unlocked, ..s };
            if r == t.at_mount() {
                lemma_mount_ok(t);
            } else if r == s.at_mount() {
                lemma_mount_ok(s);
            }
        },
        BootAction::SetUpPassphrase => {
            let t = BootState { trust: provisioned, ..s };
            if r == t.at_mount() {
                lemma_mount_ok(t);
            } else if r == s.at_mount() {
                lemma_mount_ok(s);
            }
        },
        _ => {},
    }
}

proof fn lemma_services_pending(s: BootState, event: BootEvent)
    requires
        boot_ok(s),
        stage(s.pending) == Stage::Services,
    ensures
        pending_ok(s.advanced(event)),
{
    lemma_services_stage(s, event);
    reveal(BootState::services_advanced);
}

proof fn lemma_pending(s: BootState, event: BootEvent)
    requires
        boot_ok(s),
    ensures
        pending_ok(s.advanced(event)),
{
    match stage(s.pending) {
        Stage::Board => {
            lemma_board_stage(s, event);
        },
        Stage::Trust => {
            lemma_trust(s, event);
            lemma_trust_pending(s, event);
        },
        Stage::Services => {
            lemma_services_pending(s, event);
        },
        Stage::Over => {},
    }
}

proof fn lemma_scheduling(s: BootState, event: BootEvent)
    requires
        boot_ok(s),
    ensures
        scheduling_ok(s.advanced(event)),
{
    match stage(s.pending) {
        Stage::Board => {
            lemma_board_stage(s, event);
        },
        Stage::Trust => {
            lemma_trust_stage(s, event);
        },
        Stage::Services => {
            lemma_services_stage(s, event);
            reveal(BootState::services_advanced);
        },
        Stage::Over => {},
    }
}

/// Law: trust is established by nothing but a verified boot image under a
/// production anchor.
pub proof fn law_only_a_verified_image_is_trusted(s: BootState, event: BootEvent)
    requires
        !s.trust.secure_boot_ok,
        s.advanced(event).trust.secure_boot_ok,
    ensures
        s.pending == BootAction::VerifyBootImage,
        event == BootEvent::Image(ImageVerdict::Verified),
        s.production_anchor,
{
    match stage(s.pending) {
        Stage::Board => {
            lemma_board_stage(s, event);
        },
        Stage::Trust => {
            lemma_trust_stage(s, event);
        },
        Stage::Services => {
            lemma_services_stage(s, event);
        },
        Stage::Over => {},
    }
}

/// Law: a boot image that is there and is not verified halts the boot, and so does
/// anything else than a verdict; a missing medium does not, but establishes no trust.
pub proof fn law_refused_image_halts(s: BootState, event: BootEvent)
    requires
        s.pending == BootAction::VerifyBootImage,
    ensures
        s.advanced(event).pending is Halt <==> event != BootEvent::Image(ImageVerdict::Verified)
            && event != BootEvent::Image(ImageVerdict::Absent),
        event == BootEvent::Image(ImageVerdict::Absent) ==> s.advanced(event).trust.secure_boot_ok
            == s.trust.secure_boot_ok,
{
    lemma_trust_stage(s, event);
}

/// Law: a halted boot stays halted: nothing is asked for, mounted or started after
/// it, whatever happens.
pub proof fn law_halt_is_final(s: BootState, event: BootEvent)
    requires
        s.pending is Halt,
    ensures
        s.advanced(event) == s,
{
}

/// Law: the boot comes to an end. Each step leaves fewer actions to do, until the
/// service loop is entered or the boot is halted.
pub proof fn law_boot_comes_to_an_end(s: BootState, event: BootEvent)
    requires
        !(s.pending is EnterServiceLoop),
        !(s.pending is Halt),
    ensures
        rank(s.advanced(event).pending) < rank(s.pending),
{
    match stage(s.pending) {
        Stage::Board => {
            lemma_board_stage(s, event);
        },
        Stage::Trust => {
            lemma_trust_stage(s, event);
        },
        Stage::Services => {
            lemma_services_stage(s, event);
        },
        Stage::Over => {},
    }
}

/// Law: a driver that fails stops nothing. Every action but the verification of the
/// boot image goes on after a failure, towards the service loop.
pub proof fn law_failures_are_isolated(s: BootState)
    requires
        s.pending != BootAction::VerifyBootImage,
        !(s.pending is Halt),
    ensures
        !(s.advanced(BootEvent::Failed).pending is Halt),
{
    let event = BootEvent::Failed;
    match stage(s.pending) {
        Stage::Board => {
            lemma_board_stage(s, event);
        },
        Stage::Trust => {
            lemma_trust_stage(s, event);
        },
        Stage::Services => {
            lemma_services_stage(s, event);
        },
        Stage::Over => {},
    }
}

/// The state after a history of events.
pub open spec fn after_events(s: BootState, events: Seq<BootEvent>) -> BootState
    decreases events.len(),
{
    if events.len() == 0 {
        s
    } else {
        after_events(s, events.drop_last()).advanced(events.last())
    }
}

/// Law: every state that a boot reaches lies within the invariant.
pub proof fn law_every_boot_is_well(production_anchor: bool, events: Seq<BootEvent>)
    ensures
        boot_ok(after_events(BootState::fresh(production_anchor), events)),
    decreases events.len(),
{
    if events.len() == 0 {
        law_boot_starts_well(production_anchor);
    } else {
        law_every_boot_is_well(production_anchor, events.drop_last());
        law_boot_stays_well(
            after_events(BootState::fresh(production_anchor), events.drop_last()),
            events.last(),
        );
    }
}

/// Law: without a production anchor no boot ever opens the userdata partition, asks
/// for the passphrase or sets one.
pub proof fn law_dev_anchor_stays_locked(events: Seq<BootEvent>)
    ensures
        ({
            let s = after_events(BootState::fresh(false), events);
            &&& !s.trust.secure_boot_ok
            &&& !s.trust.passphrase_ok
            &&& !opens_storage(s.pending)
            &&& s.pending != BootAction::VerifyPassphrase
            &&& s.pending != BootAction::SetUpPassphrase
        }),
{
    law_every_boot_is_well(false, events);
    lemma_anchor_is_fixed(BootState::fresh(false), events);
}

proof fn lemma_anchor(s: BootState, event: BootEvent)
    ensures
        s.advanced(event).production_anchor == s.production_anchor,
{
    match stage(s.pending) {
        Stage::Board => {
            lemma_board_stage(s, event);
        },
        Stage::Trust => {
            lemma_trust_stage(s, event);
        },
        Stage::Services => {
            lemma_services_stage(s, event);
        },
        Stage::Over => {},
    }
}

proof fn lemma_anchor_is_fixed(s: BootState, events: Seq<BootEvent>)
    ensures
        after_events(s, events).production_anchor == s.production_anchor,
    decreases events.len(),
{
    if events.len() > 0 {
        lemma_anchor_is_fixed(s, events.drop_last());
        lemma_anchor(after_events(s, events.drop_last()), events.last());
    }
}

// ---------------------------------------------------------------------------
// Passphrase
// ---------------------------------------------------------------------------

/// Law: setup provisions with an entry only where the same entry was made twice in a
/// row, and never with a short one.
pub proof fn law_setup_needs_two_equal_entries(a: Seq<u8>, b: Seq<u8>)
    ensures
        submitted(submitted(None, a).0, b).1 == SetupStep::Provision <==> a == b && a.len()
            >= MIN_BOOT_PASSPHRASE_LEN,
        submitted(None, b).1 != SetupStep::Provision,
{
}

/// Law: only digits can be entered, whatever keys are pressed, and only Hash submits.
pub proof fn law_entries_are_digits(entry: Seq<u8>, key: Key)
    requires
        is_entry(entry),
    ensures
        is_entry(keyed(entry, key)),
        action_of(key) == EntryAction::Submit <==> key == Key::Hash,
        key == Key::Hash ==> keyed(entry, key) == entry,
{
}

/// Law: Star takes back the last digit.
pub proof fn law_backspace_undoes_a_digit(entry: Seq<u8>, key: Key)
    requires
        entry.len() < MAX_PASSPHRASE_LEN,
        action_of(key) is Append,
    ensures
        keyed(keyed(entry, key), Key::Star) == entry,
{
    assert(keyed(keyed(entry, key), Key::Star) =~= entry);
}

/// Law: once the second entry was compared, the first is no longer remembered.
pub proof fn law_setup_forgets_the_first_entry(first: Seq<u8>, entered: Seq<u8>)
    ensures
        submitted(Some(first), entered).0 is None,
{
}

/// Law: a passphrase that a device was provisioned with unlocks it, and loads the
/// keys that it was provisioned with.
pub proof fn law_provisioned_passphrase_unlocks(
    kdf: PinKdf,
    salt: Seq<u8>,
    passphrase: Seq<u8>,
    primary: Seq<u8>,
)
    requires
        derived_under(kdf, passphrase, salt) == Some(primary),
    ensures
        accepted(kdf, salt, verifier_of(primary), passphrase) == Some(primary),
        KeyModel::unlocked(primary).keys == Some(keys_of(primary)),
{
}

/// Law: entered at boot, the passphrase that a device was provisioned with unlocks it,
/// where the lock screen has it checked and lets a right one in.
pub proof fn law_boot_unlocks_with_the_passphrase(
    kdf: PinKdf,
    salt: Seq<u8>,
    passphrase: Seq<u8>,
    primary: Seq<u8>,
    lock: LockAnswers,
)
    requires
        derived_under(kdf, passphrase, salt) == Some(primary),
        lock.unchecked is None,
        lock.right.result == UnlockResult::Success,
    ensures
        verify_keyed(passphrase, Key::Hash, kdf, salt, Some(verifier_of(primary)), lock).1 == Some(
            VerifyOutcome::Unlocked,
        ),
{
}

/// Law: nothing but a submitted passphrase with the stored verifier unlocks the device at
/// boot, whatever the lock screen answers, and without a stored verifier nothing does.
pub proof fn law_boot_unlocks_with_nothing_else(
    entry: Seq<u8>,
    key: Key,
    kdf: PinKdf,
    salt: Seq<u8>,
    stored: Option<Seq<u8>>,
    lock: LockAnswers,
)
    ensures
        verify_keyed(entry, key, kdf, salt, stored, lock).1 == Some(VerifyOutcome::Unlocked) <==> (
        key == Key::Hash && stored is Some && (derived_under(kdf, entry, salt) matches Some(primary)
            && verifier_of(primary) == stored->0) && lock.unchecked is None && lock.right.result
            == UnlockResult::Success),
{
}

/// Law: the data is wiped at boot exactly where the lock screen answers a submission with
/// the wipe.
pub proof fn law_boot_wipes_where_the_lock_screen_says(
    entry: Seq<u8>,
    key: Key,
    kdf: PinKdf,
    salt: Seq<u8>,
    stored: Option<Seq<u8>>,
    lock: LockAnswers,
)
    ensures
        verify_keyed(entry, key, kdf, salt, stored, lock).1 == Some(VerifyOutcome::WipeAndHalt)
            <==> (key == Key::Hash && stored is Some && lock.answer(
            accepted(kdf, salt, stored->0, entry) is Some,
        ).result == UnlockResult::WipeTrigger),
{
}

/// The entry and the remembered first entry after some keys of first-boot setup.
pub open spec fn setup_after(keys: Seq<Key>) -> (Seq<u8>, Option<Seq<u8>>)
    decreases keys.len(),
{
    if keys.len() == 0 {
        (Seq::empty(), None)
    } else {
        let (entry, first) = setup_after(keys.drop_last());
        let step = setup_keyed(entry, first, keys.last());
        (step.0, step.1)
    }
}

/// Law: setup ends with a passphrase that was entered twice and that can be entered at
/// boot: digits, and neither too few nor too many. What is then stored is the salt and
/// the verifier of the primary key that this very passphrase derives under the salt; with
/// these in the preamble, it unlocks the device at the next boot with the same primary key.
pub proof fn law_setup_ends_with_what_unlocks(
    keys: Seq<Key>,
    key: Key,
    kdf: PinKdf,
    salt: Seq<u8>,
    lock: LockAnswers,
)
    requires
        setup_keyed(setup_after(keys).0, setup_after(keys).1, key).2 == Some(SetupStep::Provision),
        lock.unchecked is None,
        lock.right.result == UnlockResult::Success,
    ensures
        ({
            let entry = setup_keyed(setup_after(keys).0, setup_after(keys).1, key).0;
            &&& setup_after(keys).1 == Some(entry)
            &&& is_entry(entry)
            &&& entry.len() >= MIN_BOOT_PASSPHRASE_LEN
            &&& provisioned(kdf, entry, salt) matches Some(p) ==> {
                &&& p.salt == salt
                &&& derived_under(kdf, entry, salt) == Some(p.primary)
                &&& verify_keyed(entry, Key::Hash, kdf, p.salt, Some(p.verifier), lock).1 == Some(
                    VerifyOutcome::Unlocked,
                )
                &&& accepted(kdf, p.salt, p.verifier, entry) == Some(p.primary)
            }
        }),
{
    lemma_setup_after(keys);
}

proof fn lemma_setup_after(keys: Seq<Key>)
    ensures
        is_entry(setup_after(keys).0),
        setup_after(keys).1 matches Some(first) ==> is_entry(first) && first.len()
            >= MIN_BOOT_PASSPHRASE_LEN,
    decreases keys.len(),
{
    if keys.len() > 0 {
        lemma_setup_after(keys.drop_last());
        law_entries_are_digits(setup_after(keys.drop_last()).0, keys.last());
    }
}

/// Law: what is accepted has the stored verifier: a passphrase whose verifier
/// differs is refused.
pub proof fn law_accepted_passphrase_has_the_verifier(
    kdf: PinKdf,
    salt: Seq<u8>,
    verifier: Seq<u8>,
    entered: Seq<u8>,
)
    ensures
        accepted(kdf, salt, verifier, entered) is Some <==> (derived_under(kdf, entered, salt)
            matches Some(primary) && verifier_of(primary) == verifier),
{
}

} // verus!
