//! Boot sequence and passphrase entry.
use thumos::board::{LFS_PARTITION_SIZE, LFS_PARTITION_START};
use thumos::key_manager::KeyManager;
use thumos::keypad::Key;
use thumos::kinit::{
    activated_devices, after_submit, boot_digit, boot_setup_step, boot_verify_step, check_passphrase, constant_time_eq,
    debug_console_gate, entry_action, fill_framebuffer, finish_provisioning, modem_overran,
    prepare_provisioning, provision_entry, run, session_audit_key, stage_of, start_console, timer_advances, trust_suffix, BootAction, BootEvent, BootSetup,
    BootState, ConsoleGate, EntryAction, ImageVerdict, LockAnswer, LockAnswers, NetworkReadiness,
    PassphraseEntry, ProvisionFault, SetupStep, Stage, StorageKind, UnlockResult, VerifyOutcome,
    MAX_PASSPHRASE_LEN,
};
use thumos::kinit_plan::{
    boot_passphrase_plan, classify_preamble, encrypted_payload_window, may_format_encrypted_lfs,
    mount_plan, mount_skip_reason, passphrase_skip_reason, plain_window, preamble_window,
    BootPassphrasePlan, MountPlan, PreambleLoad, PreambleStatus, MODEM_BOOT_TIMEOUT_MS,
};
use thumos::security::{PinKdf, SecurityError};
use thumos::security_mode::SecurityMode;

const KDF: PinKdf = PinKdf::Pbkdf2Sha256 { iterations: 3 };

/// Bring a boot to the verification of its image, with everything working.
fn at_verification(production: bool) -> BootState {
    let mut state = BootState::new(production);
    while state.pending != BootAction::VerifyBootImage {
        run(&mut state, BootEvent::Succeeded);
    }
    state
}

/// Run a boot to its end, every further action succeeding.
fn finish(state: &mut BootState) -> Vec<BootAction> {
    let mut seen = Vec::new();
    loop {
        seen.push(state.pending);
        match state.pending {
            BootAction::EnterServiceLoop { .. } | BootAction::Halt { .. } => return seen,
            BootAction::SpawnInit => run(state, BootEvent::Spawned(1)),
            BootAction::SpawnShell => run(state, BootEvent::Spawned(2)),
            BootAction::ProbeWifi => run(
                state,
                BootEvent::Network(NetworkReadiness::HardwareUnavailable),
            ),
            BootAction::SmokeNetwork => run(
                state,
                BootEvent::Network(NetworkReadiness::LoopbackSmokeOnly),
            ),
            _ => run(state, BootEvent::Succeeded),
        };
    }
}

#[test]
fn the_board_comes_up_in_dependency_order() {
    let mut state = BootState::new(true);
    let mut order = vec![state.pending];
    while state.pending != BootAction::VerifyBootImage {
        order.push(run(&mut state, BootEvent::Succeeded));
    }
    assert_eq!(
        order,
        vec![
            BootAction::EnableMmu,
            BootAction::InitPageAllocator,
            BootAction::InitHeap,
            BootAction::InitGic,
            BootAction::InitProcesses,
            BootAction::InitExceptions,
            BootAction::SeedCsprng,
            BootAction::ArmWatchdog,
            BootAction::RegisterDevices,
            BootAction::InitEmmc,
            BootAction::InitDisplay,
            BootAction::EnableKeypad,
            BootAction::VerifyBootImage,
        ]
    );
    assert_eq!(state.ok_count(), 8);
    assert_eq!(state.total_subsystems(), 17);
}

#[test]
fn a_provisioned_device_mounts_its_encrypted_payload() {
    let mut state = at_verification(true);
    run(&mut state, BootEvent::Image(ImageVerdict::Verified));
    assert_eq!(state.pending, BootAction::ProbePreamble);
    run(
        &mut state,
        BootEvent::Preamble(PreambleStatus::Valid { has_verifier: true }),
    );
    assert_eq!(state.pending, BootAction::VerifyPassphrase);
    run(&mut state, BootEvent::Succeeded);
    assert_eq!(
        state.pending,
        BootAction::MountStorage(StorageKind::Encrypted)
    );
    run(&mut state, BootEvent::Succeeded);
    assert_eq!(state.pending, BootAction::InitVfs { persistent: true });
    assert!(state.trust.encryption_ok);

    let seen = finish(&mut state);
    assert_eq!(
        seen.last(),
        Some(&BootAction::EnterServiceLoop { display: true })
    );
    let policy = seen.iter().position(|a| *a == BootAction::ApplyRadioPolicy);
    let usb = seen.iter().position(|a| *a == BootAction::InitUsb);
    assert!(policy < usb, "the radio policy comes before the radios");
    assert_eq!(state.user.processes_spawned, 2);
    assert_eq!(state.user.supervised_shell, Some(2));
    assert!(state.user.scheduling_enabled);
}

#[test]
fn a_first_boot_sets_a_passphrase_and_formats() {
    let mut state = at_verification(true);
    run(&mut state, BootEvent::Image(ImageVerdict::Verified));
    run(&mut state, BootEvent::Preamble(PreambleStatus::Absent));
    assert_eq!(state.pending, BootAction::SetUpPassphrase);
    run(&mut state, BootEvent::Succeeded);
    assert!(state.trust.provisioned_this_boot);
    run(&mut state, BootEvent::NoSuperblock);
    assert_eq!(
        state.pending,
        BootAction::FormatStorage(StorageKind::Encrypted)
    );
    run(&mut state, BootEvent::Succeeded);
    assert_eq!(
        state.pending,
        BootAction::RemountStorage(StorageKind::Encrypted)
    );
    run(&mut state, BootEvent::Succeeded);
    assert_eq!(state.pending, BootAction::InitVfs { persistent: true });
}

#[test]
fn a_device_provisioned_earlier_is_never_formatted() {
    let mut state = at_verification(true);
    run(&mut state, BootEvent::Image(ImageVerdict::Verified));
    run(
        &mut state,
        BootEvent::Preamble(PreambleStatus::Valid { has_verifier: true }),
    );
    run(&mut state, BootEvent::Succeeded);
    run(&mut state, BootEvent::NoSuperblock);
    assert_eq!(state.pending, BootAction::InitVfs { persistent: false });
    assert!(!state.trust.encryption_ok);
}

#[test]
fn a_skipped_setup_mounts_the_plain_file_system() {
    let mut state = at_verification(true);
    run(&mut state, BootEvent::Image(ImageVerdict::Verified));
    run(
        &mut state,
        BootEvent::Preamble(PreambleStatus::Valid {
            has_verifier: false,
        }),
    );
    run(&mut state, BootEvent::Failed);
    assert_eq!(state.pending, BootAction::MountStorage(StorageKind::Plain));
    run(&mut state, BootEvent::NoSuperblock);
    assert_eq!(state.pending, BootAction::FormatStorage(StorageKind::Plain));
    run(&mut state, BootEvent::Failed);
    assert_eq!(state.pending, BootAction::InitVfs { persistent: false });
}

#[test]
fn a_refused_image_halts_for_good() {
    let mut state = at_verification(true);
    run(&mut state, BootEvent::Image(ImageVerdict::Refused));
    assert_eq!(state.pending, BootAction::Halt { display: true });
    let halted = state;
    run(&mut state, BootEvent::Succeeded);
    run(&mut state, BootEvent::Image(ImageVerdict::Verified));
    assert_eq!(state, halted);
    assert!(!state.user.scheduling_enabled);
}

#[test]
fn a_dev_anchor_establishes_no_trust() {
    let mut state = at_verification(false);
    run(&mut state, BootEvent::Image(ImageVerdict::Verified));
    assert!(!state.trust.secure_boot_ok);
    run(
        &mut state,
        BootEvent::Preamble(PreambleStatus::Valid { has_verifier: true }),
    );
    assert_eq!(state.pending, BootAction::InitVfs { persistent: false });
    let seen = finish(&mut state);
    assert!(seen.contains(&BootAction::SpawnInit), "a verified image runs");
    assert!(!state.trust.passphrase_ok);
}

#[test]
fn without_a_medium_the_boot_goes_on_locked() {
    let mut state = BootState::new(true);
    while state.pending != BootAction::VerifyBootImage {
        let event = if state.pending == BootAction::InitEmmc {
            BootEvent::Failed
        } else {
            BootEvent::Succeeded
        };
        run(&mut state, event);
    }
    run(&mut state, BootEvent::Image(ImageVerdict::Absent));
    assert_eq!(state.pending, BootAction::InitVfs { persistent: false });
    while state.pending != BootAction::VerifyUserspaceImage {
        run(&mut state, BootEvent::Failed);
    }
    run(&mut state, BootEvent::Failed);
    assert_eq!(
        state.pending,
        BootAction::EnableScheduling,
        "nothing is verified, so nothing is started"
    );
    assert_eq!(state.user.processes_spawned, 0);
}

#[test]
fn reaching_the_attempt_limit_halts() {
    let mut state = at_verification(true);
    run(&mut state, BootEvent::Image(ImageVerdict::Verified));
    run(
        &mut state,
        BootEvent::Preamble(PreambleStatus::Valid { has_verifier: true }),
    );
    run(&mut state, BootEvent::WipeTriggered);
    assert_eq!(state.pending, BootAction::Halt { display: true });
}

#[test]
fn missing_programs_are_counted() {
    let mut state = at_verification(true);
    run(&mut state, BootEvent::Image(ImageVerdict::Verified));
    while state.pending != BootAction::SpawnInit {
        run(&mut state, BootEvent::Failed);
    }
    run(&mut state, BootEvent::Missing);
    run(&mut state, BootEvent::Missing);
    assert_eq!(state.user.userspace_entries_missing, 2);
    assert_eq!(state.user.supervised_shell, None);
    assert_eq!(state.pending, BootAction::EnableScheduling);
}

#[test]
fn the_summary_notes_what_is_missing() {
    let mut state = BootState::new(false);
    assert_eq!(state.boot_notes().len(), 4);
    state.core.csprng_ok = true;
    state.board.display_ok = true;
    state.radio.modem_ok = true;
    state.radio.network_loopback_smoke_ok = true;
    assert_eq!(
        state.boot_notes(),
        vec![
            " NOTE: network unavailable, no connectivity\r\n",
            " NOTE: DHCP/DNS smoke used loopback only; WiFi not wired\r\n",
        ]
    );
    state.radio.network_ok = true;
    assert!(state.boot_notes().is_empty());
}

#[test]
fn actions_belong_to_stages() {
    assert_eq!(stage_of(BootAction::InitGic), Stage::Board);
    assert_eq!(stage_of(BootAction::VerifyBootImage), Stage::Trust);
    assert_eq!(stage_of(BootAction::InitUsb), Stage::Services);
    assert_eq!(stage_of(BootAction::Halt { display: false }), Stage::Over);
}

#[test]
fn plans_follow_from_what_is_known() {
    assert_eq!(
        boot_passphrase_plan(true, true, true, PreambleLoad::Provisioned),
        BootPassphrasePlan::Verify
    );
    assert_eq!(
        boot_passphrase_plan(true, true, true, PreambleLoad::Unprovisioned),
        BootPassphrasePlan::FirstBootSetup
    );
    for (secure, display, input, preamble) in [
        (false, true, true, PreambleLoad::Provisioned),
        (true, false, true, PreambleLoad::Provisioned),
        (true, true, false, PreambleLoad::Provisioned),
        (true, true, true, PreambleLoad::Corrupt),
        (true, true, true, PreambleLoad::ReadFailed),
    ] {
        assert_eq!(
            boot_passphrase_plan(secure, display, input, preamble),
            BootPassphrasePlan::Skip
        );
    }
    assert_eq!(
        mount_plan(true, true, PreambleLoad::Provisioned, true),
        MountPlan::Encrypted
    );
    assert_eq!(
        mount_plan(true, true, PreambleLoad::Provisioned, false),
        MountPlan::RamfsFallback
    );
    assert_eq!(
        mount_plan(true, true, PreambleLoad::Unprovisioned, false),
        MountPlan::Plain
    );
    assert_eq!(
        mount_plan(true, true, PreambleLoad::Corrupt, true),
        MountPlan::RamfsFallback
    );
    assert_eq!(
        mount_plan(true, false, PreambleLoad::Unprovisioned, false),
        MountPlan::RamfsFallback
    );
    assert_eq!(
        classify_preamble(PreambleStatus::Corrupt),
        PreambleLoad::Corrupt
    );
    assert_eq!(
        classify_preamble(PreambleStatus::Unreadable),
        PreambleLoad::ReadFailed
    );
    assert!(may_format_encrypted_lfs(PreambleLoad::Provisioned, true));
    assert!(!may_format_encrypted_lfs(PreambleLoad::Provisioned, false));
    assert!(!may_format_encrypted_lfs(PreambleLoad::Unprovisioned, true));
}

#[test]
fn skips_are_explained() {
    assert_eq!(
        mount_skip_reason(true, true),
        " Skipped (payload locked or unreadable -- fail-closed)\r\n"
    );
    assert_eq!(
        mount_skip_reason(true, false),
        " Skipped (secure boot not established -- fail-closed)\r\n"
    );
    assert_eq!(mount_skip_reason(false, true), " Skipped (no eMMC)\r\n");
    assert!(passphrase_skip_reason(false, true, true).contains("secure boot"));
    assert!(passphrase_skip_reason(true, false, true).contains("display"));
    assert!(passphrase_skip_reason(true, true, false).contains("keypad"));
    assert!(passphrase_skip_reason(true, true, true).contains("preamble"));
}

#[test]
fn the_payload_lies_behind_the_preamble() {
    let preamble = preamble_window();
    let payload = encrypted_payload_window();
    assert_eq!(preamble.start, LFS_PARTITION_START);
    assert_eq!(preamble.start + preamble.count, payload.start);
    assert_eq!(
        payload.start + payload.count,
        LFS_PARTITION_START + LFS_PARTITION_SIZE
    );
    assert_eq!(plain_window().count, LFS_PARTITION_SIZE);
}

#[test]
fn keys_append_remove_or_submit() {
    assert_eq!(boot_digit(Key::Num0), Some(b'0'));
    assert_eq!(boot_digit(Key::Num9), Some(b'9'));
    assert_eq!(boot_digit(Key::Star), None);
    assert_eq!(entry_action(Key::Num5), EntryAction::Append(b'5'));
    assert_eq!(entry_action(Key::Star), EntryAction::Backspace);
    assert_eq!(entry_action(Key::Hash), EntryAction::Submit);
    assert_eq!(entry_action(Key::End), EntryAction::Ignore);

    let mut entry = PassphraseEntry::new();
    for key in [Key::Num1, Key::Num2, Key::Star, Key::Num3, Key::Rsk] {
        entry.apply_key(key);
    }
    assert_eq!(entry.passphrase_bytes(), b"13");
    entry.apply_key(Key::Star);
    entry.apply_key(Key::Star);
    entry.apply_key(Key::Star);
    assert_eq!(entry.passphrase_bytes(), b"");
    for _ in 0..MAX_PASSPHRASE_LEN + 3 {
        entry.apply_key(Key::Num7);
    }
    assert_eq!(entry.passphrase_bytes().len(), MAX_PASSPHRASE_LEN);
    entry.clear_passphrase();
    assert_eq!(entry.passphrase_bytes(), b"");
}

/// Press the keys of a text of digits.
fn type_in(entry: &mut PassphraseEntry, setup: &mut BootSetup, digits: &str) -> Option<SetupStep> {
    for d in digits.bytes() {
        let key = match d {
            b'1' => Key::Num1,
            b'2' => Key::Num2,
            _ => Key::Num3,
        };
        assert_eq!(boot_setup_step(entry, setup, key), None);
    }
    boot_setup_step(entry, setup, Key::Hash)
}

#[test]
fn setup_asks_for_six_digits_twice() {
    let mut entry = PassphraseEntry::new();
    let mut setup = BootSetup::new();
    assert_eq!(
        type_in(&mut entry, &mut setup, "12312"),
        Some(SetupStep::TooShort)
    );
    assert_eq!(
        type_in(&mut entry, &mut setup, "3"),
        Some(SetupStep::AskConfirm),
        "a short entry is continued"
    );
    assert!(setup.confirming());
    assert_eq!(entry.passphrase_bytes(), b"");
    assert_eq!(
        type_in(&mut entry, &mut setup, "123122"),
        Some(SetupStep::StartOver)
    );
    assert!(!setup.confirming());
    assert_eq!(
        type_in(&mut entry, &mut setup, "222222"),
        Some(SetupStep::AskConfirm)
    );
    assert_eq!(
        type_in(&mut entry, &mut setup, "222222"),
        Some(SetupStep::Provision)
    );
    assert_eq!(entry.passphrase_bytes(), b"222222");
}

#[test]
fn a_provisioned_passphrase_unlocks_and_others_do_not() {
    let salt = [9u8; 32];
    let made = prepare_provisioning(b"222222", &salt, KDF).expect("derivation");
    let mut km = KeyManager::new();
    assert!(!finish_provisioning(&made, false, &mut km));
    assert!(!km.has_keys(), "nothing is loaded where nothing was stored");
    assert!(finish_provisioning(&made, true, &mut km));
    let data = *km.data_key().expect("data key").as_bytes();

    let primary = check_passphrase(KDF, &salt, &made.verifier, b"222222");
    assert!(primary.is_some());
    let mut later = KeyManager::new();
    assert_eq!(
        after_submit(UnlockResult::Success, primary, &mut later),
        VerifyOutcome::Unlocked
    );
    assert_eq!(later.data_key().expect("data key").as_bytes(), &data);

    assert!(check_passphrase(KDF, &salt, &made.verifier, b"222223").is_none());
    assert!(check_passphrase(KDF, &[8u8; 32], &made.verifier, b"222222").is_none());
    let none = PinKdf::Pbkdf2Sha256 { iterations: 0 };
    assert!(check_passphrase(none, &salt, &made.verifier, b"222222").is_none());
    assert!(matches!(
        prepare_provisioning(b"222222", &salt, none),
        Err(SecurityError::KeyDerivationFailed)
    ));
}

#[test]
fn every_other_answer_of_the_lock_screen_loads_nothing() {
    let mut km = KeyManager::new();
    assert_eq!(
        after_submit(UnlockResult::Success, None, &mut km),
        VerifyOutcome::KeyFault
    );
    assert_eq!(
        after_submit(UnlockResult::WipeTrigger, None, &mut km),
        VerifyOutcome::WipeAndHalt
    );
    for result in [
        UnlockResult::WrongPassphrase,
        UnlockResult::WrongPin,
        UnlockResult::Throttled,
        UnlockResult::DuressDetected,
    ] {
        assert_eq!(
            after_submit(result, None, &mut km),
            VerifyOutcome::KeepPolling
        );
    }
    assert!(!km.has_keys());
}

#[test]
fn digests_are_compared_whole() {
    let a = [7u8; 32];
    let mut b = a;
    assert!(constant_time_eq(&a, &b));
    b[31] = 6;
    assert!(!constant_time_eq(&a, &b));
    b[31] = 7;
    b[0] = 0;
    assert!(!constant_time_eq(&a, &b));
}

#[test]
fn the_debug_console_needs_three_things() {
    assert_eq!(
        debug_console_gate(false, SecurityMode::Daily),
        ConsoleGate::Off
    );
    assert_eq!(
        debug_console_gate(true, SecurityMode::Sentinel),
        ConsoleGate::RefusedByMode
    );
    assert_eq!(
        debug_console_gate(true, SecurityMode::Panic),
        ConsoleGate::RefusedByMode
    );
    let armed = debug_console_gate(true, SecurityMode::Daily);
    assert_eq!(armed, ConsoleGate::AwaitPresence);
    assert!(start_console(armed, true));
    assert!(!start_console(armed, false));
    assert!(!start_console(ConsoleGate::Off, true));
}

#[test]
fn the_banner_names_an_untrusted_anchor() {
    assert_eq!(trust_suffix(true), "");
    assert_eq!(trust_suffix(false), " (NOT PRODUCTION-TRUSTED)");
    assert!(timer_advances(62_500_000, 10, 20));
    assert!(!timer_advances(0, 10, 20));
    assert!(!timer_advances(62_500_000, 10, 10));
}

#[test]
fn a_framebuffer_is_filled_up_to_its_size() {
    let mut fb = vec![1u16; 10];
    fill_framebuffer(&mut fb, 4, 2, 0xF800);
    assert_eq!(&fb[..8], &[0xF800; 8]);
    assert_eq!(&fb[8..], &[1, 1]);
}

#[test]
fn devices_come_up_with_their_drivers() {
    assert_eq!(activated_devices(BootAction::InitEmmc), vec!["msdc0"]);
    assert_eq!(
        activated_devices(BootAction::InitDisplay),
        vec!["gc9306-lcm", "disp-ovl0", "disp-rdma0"]
    );
    assert_eq!(activated_devices(BootAction::EnableKeypad), vec!["mtk-kpd"]);
    assert_eq!(activated_devices(BootAction::InitUsb), vec!["musb-hdrc"]);
    assert_eq!(
        activated_devices(BootAction::BootModem),
        vec!["ccci-cldma", "ccci-ccif"]
    );
    assert_eq!(activated_devices(BootAction::InitBluetooth), vec!["bt0"]);
    assert_eq!(activated_devices(BootAction::InitGps), vec!["gps0"]);
    assert!(activated_devices(BootAction::InitHeap).is_empty());
}

#[test]
fn a_slow_modem_is_noted() {
    assert!(!modem_overran(MODEM_BOOT_TIMEOUT_MS));
    assert!(modem_overran(MODEM_BOOT_TIMEOUT_MS + 1));
}

#[test]
fn without_random_bytes_the_audit_key_is_blank() {
    assert_eq!(session_audit_key(true, Some([5; 32])), [5; 32]);
    assert_eq!(session_audit_key(true, None), [0; 32]);
    assert_eq!(session_audit_key(false, Some([5; 32])), [0; 32]);
}

/// A device that was provisioned with `222222`, at its boot.
struct Locked {
    entry: PassphraseEntry,
    stored: Option<[u8; 32]>,
    salt: [u8; 32],
    lock: LockAnswers,
    km: KeyManager,
}

/// A lock screen's answer that erases the entry.
fn answer(result: UnlockResult) -> LockAnswer {
    LockAnswer { result, erases: true }
}

/// A lock screen with attempts left.
fn attempts_left() -> LockAnswers {
    LockAnswers {
        unchecked: None,
        right: answer(UnlockResult::Success),
        wrong: answer(UnlockResult::WrongPassphrase),
    }
}

impl Locked {
    fn new() -> Self {
        let salt = [9u8; 32];
        let made = prepare_provisioning(b"222222", &salt, KDF).expect("derivation");
        Locked {
            entry: PassphraseEntry::new(),
            stored: Some(made.verifier),
            salt,
            lock: attempts_left(),
            km: KeyManager::new(),
        }
    }

    fn press(&mut self, key: Key) -> Option<VerifyOutcome> {
        boot_verify_step(
            &mut self.entry,
            key,
            self.stored,
            &self.salt,
            KDF,
            self.lock,
            &mut self.km,
        )
    }

    fn submit(&mut self, key: Key) -> Option<VerifyOutcome> {
        for _ in 0..6 {
            assert_eq!(self.press(key), None);
        }
        self.press(Key::Hash)
    }
}

#[test]
fn the_passphrase_unlocks_the_device() {
    let mut device = Locked::new();
    assert_eq!(device.submit(Key::Num3), Some(VerifyOutcome::KeepPolling));
    assert!(!device.km.has_keys());
    assert_eq!(device.entry.passphrase_bytes(), b"");
    assert_eq!(device.submit(Key::Num2), Some(VerifyOutcome::Unlocked));
    assert!(device.km.has_keys());
    assert_eq!(device.entry.passphrase_bytes(), b"");
}

#[test]
fn the_gate_does_as_the_lock_screen_answers() {
    let mut device = Locked::new();
    device.lock.unchecked = Some(LockAnswer { result: UnlockResult::Throttled, erases: false });
    assert_eq!(device.submit(Key::Num2), Some(VerifyOutcome::KeepPolling));
    assert_eq!(device.entry.passphrase_bytes(), b"222222", "the entry stays");
    device.lock.unchecked = Some(answer(UnlockResult::Success));
    assert_eq!(
        device.press(Key::Hash),
        Some(VerifyOutcome::KeyFault),
        "without a check nothing unlocks"
    );
    assert!(!device.km.has_keys());

    device.lock = attempts_left();
    device.lock.wrong = answer(UnlockResult::WipeTrigger);
    assert_eq!(device.submit(Key::Num3), Some(VerifyOutcome::WipeAndHalt));
    assert!(!device.km.has_keys());
    assert_eq!(device.submit(Key::Num2), Some(VerifyOutcome::Unlocked));
    assert!(device.km.has_keys());
}

#[test]
fn what_setup_stores_unlocks_the_next_boot() {
    let mut entry = PassphraseEntry::new();
    let mut setup = BootSetup::new();
    assert_eq!(
        type_in(&mut entry, &mut setup, "222222"),
        Some(SetupStep::AskConfirm)
    );
    assert_eq!(
        type_in(&mut entry, &mut setup, "222222"),
        Some(SetupStep::Provision)
    );
    assert_eq!(
        provision_entry(&mut entry, None, KDF).err(),
        Some(ProvisionFault::NoEntropy)
    );
    assert_eq!(entry.passphrase_bytes(), b"222222");
    let made = provision_entry(&mut entry, Some([4; 32]), KDF).ok().expect("derivation");
    assert_eq!(entry.passphrase_bytes(), b"");
    assert_eq!(made.salt, vec![4; 32]);
    let mut first = KeyManager::new();
    assert!(finish_provisioning(&made, true, &mut first));

    let mut device = Locked::new();
    device.salt = [4; 32];
    device.stored = Some(made.verifier);
    assert_eq!(device.submit(Key::Num2), Some(VerifyOutcome::Unlocked));
    assert_eq!(
        device.km.data_key().expect("data key").as_bytes(),
        first.data_key().expect("data key").as_bytes()
    );

    assert_eq!(
        type_in(&mut entry, &mut setup, "222222"),
        Some(SetupStep::AskConfirm)
    );
    let none = PinKdf::Pbkdf2Sha256 { iterations: 0 };
    assert_eq!(
        provision_entry(&mut entry, Some([4; 32]), none).err(),
        Some(ProvisionFault::Derivation)
    );
}

#[test]
fn without_a_verifier_nothing_unlocks() {
    let mut device = Locked::new();
    device.stored = None;
    assert_eq!(device.press(Key::Num2), Some(VerifyOutcome::NoVerifier));
    assert_eq!(device.press(Key::Hash), Some(VerifyOutcome::NoVerifier));
    assert_eq!(device.entry.passphrase_bytes(), b"");
    assert!(!device.km.has_keys());
}
