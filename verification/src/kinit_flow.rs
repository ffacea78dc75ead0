//! What a boot makes of what its actions come to: the order in which they are asked for,
//! what each of them changes, and what storage the root is on in the end.
use crate::kinit::{
    lemma_board_stage, lemma_services_stage, lemma_trust_stage, rank, stage, BootAction,
    BootEvent, BootState, ImageVerdict, NetworkReadiness, Stage, StorageKind,
};
use crate::kinit_laws::{after_events, boot_ok};
use crate::kinit_plan::{PreambleLoad, PreambleStatus};
use vstd::prelude::*;

verus! {

// ---------------------------------------------------------------------------
// Storage
// ---------------------------------------------------------------------------

/// Whether an event says that storage was mounted.
pub open spec fn mounts(s: BootState, event: BootEvent) -> bool {
    (s.pending is MountStorage || s.pending is RemountStorage) && event == BootEvent::Succeeded
}

/// Whether storage was mounted at some point of a history.
pub open spec fn has_mounted(start: BootState, events: Seq<BootEvent>) -> bool {
    exists|i: int|
        0 <= i < events.len() && mounts(after_events(start, events.take(i)), #[trigger] events[i])
}

/// Law: storage that was mounted becomes the root, whatever its kind, and nothing else
/// changes but whether the encrypted payload counts as mounted.
pub proof fn law_mounted_storage_becomes_the_root(s: BootState, kind: StorageKind)
    requires
        s.pending == BootAction::MountStorage(kind) || s.pending == BootAction::RemountStorage(
            kind,
        ),
    ensures
        ({
            let r = s.advanced(BootEvent::Succeeded);
            &&& r.pending == (BootAction::InitVfs { persistent: true })
            &&& r.trust.encryption_ok <==> kind == StorageKind::Encrypted
            &&& r.trust.secure_boot_ok == s.trust.secure_boot_ok
            &&& r.trust.preamble == s.trust.preamble
            &&& r.trust.passphrase_ok == s.trust.passphrase_ok
            &&& r.trust.provisioned_this_boot == s.trust.provisioned_this_boot
            &&& r.core == s.core
            &&& r.board == s.board
            &&& r.radio == s.radio
            &&& r.user == s.user
        }),
{
    reveal(BootState::trust_advanced);
}

proof fn lemma_mount_step(s: BootState, event: BootEvent)
    requires
        rank(s.pending) >= 14,
    ensures
        mounts(s, event) ==> s.advanced(event).pending == (BootAction::InitVfs {
            persistent: true,
        }),
        !mounts(s, event) && s.advanced(event).pending is InitVfs ==> s.advanced(event).pending
            == (BootAction::InitVfs { persistent: false }),
{
    match stage(s.pending) {
        Stage::Board => {
            lemma_board_stage(s, event);
        },
        _ => {
            lemma_trust_stage(s, event);
            reveal(BootState::trust_advanced);
            reveal(BootState::at_passphrase);
            reveal(BootState::at_mount);
        },
    }
}

proof fn lemma_step_rank(s: BootState, event: BootEvent)
    ensures
        rank(s.advanced(event).pending) <= rank(s.pending),
        rank(s.pending) <= 13 ==> !mounts(s, event) && (s.advanced(event) == s
            || !(s.advanced(event).pending is InitVfs)),
{
    match stage(s.pending) {
        Stage::Board => {
            lemma_board_stage(s, event);
        },
        Stage::Trust => {
            lemma_trust_stage(s, event);
        },
        Stage::Services => {
            lemma_services_stage(s, event);
        },
        Stage::Over => {},
    }
}

proof fn lemma_has_mounted_step(start: BootState, events: Seq<BootEvent>)
    requires
        events.len() > 0,
    ensures
        has_mounted(start, events) <==> has_mounted(start, events.drop_last()) || mounts(
            after_events(start, events.drop_last()),
            events.last(),
        ),
{
    let before = events.drop_last();
    let last = events.len() - 1;
    assert forall|i: int| 0 <= i <= last implies #[trigger] events.take(i) == (if i < last {
        before.take(i)
    } else {
        before
    }) by {
        assert(events.take(i) =~= if i < last {
            before.take(i)
        } else {
            before
        });
    }
    if has_mounted(start, before) {
        let i = choose|i: int|
            0 <= i < before.len() && mounts(after_events(start, before.take(i)), #[trigger] before[i]);
        assert(events[i] == before[i]);
        assert(events.take(i) == before.take(i));
        assert(mounts(after_events(start, events.take(i)), events[i]));
    }
    if mounts(after_events(start, before), events.last()) {
        assert(events.take(last) == before);
        assert(mounts(after_events(start, events.take(last)), events[last]));
    }
    if has_mounted(start, events) {
        let i = choose|i: int|
            0 <= i < events.len() && mounts(after_events(start, events.take(i)), #[trigger] events[i]);
        if i < last {
            assert(before[i] == events[i]);
            assert(mounts(after_events(start, before.take(i)), before[i]));
        } else {
            assert(events.take(last) == before);
        }
    }
}

/// Law: the root is on persistent storage exactly where storage was mounted in this boot,
/// plain or encrypted; it is on the image-resident initramfs only where none was.
pub proof fn law_root_is_persistent_exactly_after_a_mount(
    production_anchor: bool,
    events: Seq<BootEvent>,
)
    ensures
        after_events(BootState::fresh(production_anchor), events).pending matches
            BootAction::InitVfs { persistent } ==> (persistent <==> has_mounted(
            BootState::fresh(production_anchor),
            events,
        )),
        rank(after_events(BootState::fresh(production_anchor), events).pending) >= 14
            ==> !has_mounted(BootState::fresh(production_anchor), events),
    decreases events.len(),
{
    let start = BootState::fresh(production_anchor);
    if events.len() > 0 {
        let before = events.drop_last();
        let s = after_events(start, before);
        law_root_is_persistent_exactly_after_a_mount(production_anchor, before);
        lemma_has_mounted_step(start, events);
        lemma_step_rank(s, events.last());
        if rank(s.pending) >= 14 {
            lemma_mount_step(s, events.last());
        }
    }
}

/// Law: storage is formatted only where it has no superblock and holds nothing that could
/// be lost, and what was formatted is mounted as the same kind of storage. Every other
/// failure leads to the initramfs.
pub proof fn law_formatting_loses_nothing(s: BootState, event: BootEvent, kind: StorageKind)
    requires
        boot_ok(s),
    ensures
        s.pending == BootAction::MountStorage(kind) && event != BootEvent::Succeeded ==> {
            &&& s.advanced(event).pending == BootAction::FormatStorage(kind) <==> event
                == BootEvent::NoSuperblock && (kind == StorageKind::Encrypted
                ==> s.trust.provisioned_this_boot)
            &&& s.advanced(event).pending == BootAction::FormatStorage(kind)
                || s.advanced(event).pending == (BootAction::InitVfs { persistent: false })
        },
        s.pending == BootAction::FormatStorage(kind) ==> s.advanced(event).pending == (if event
            == BootEvent::Succeeded {
            BootAction::RemountStorage(kind)
        } else {
            BootAction::InitVfs { persistent: false }
        }),
        s.pending == BootAction::RemountStorage(kind) && event != BootEvent::Succeeded
            ==> s.advanced(event).pending == (BootAction::InitVfs { persistent: false }),
{
    reveal(BootState::trust_advanced);
}

// ---------------------------------------------------------------------------
// Trust
// ---------------------------------------------------------------------------

/// Law: a trusted boot with a medium, a display and a keypad asks for the passphrase of a
/// device that has one, and sets one on a device that has none. It asks for nothing where
/// the preamble is damaged or could not be read; the root is then the initramfs.
pub proof fn law_the_preamble_decides_what_is_asked(s: BootState, event: BootEvent)
    requires
        boot_ok(s),
        s.pending == BootAction::ProbePreamble,
        s.board.emmc_ok,
        s.trust.secure_boot_ok,
        s.board.display_ok,
        s.board.input_ok,
    ensures
        s.advanced(event).pending == BootAction::VerifyPassphrase <==> event
            == BootEvent::Preamble(PreambleStatus::Valid { has_verifier: true }),
        s.advanced(event).pending == BootAction::SetUpPassphrase <==> event
            == BootEvent::Preamble(PreambleStatus::Valid { has_verifier: false }) || event
            == BootEvent::Preamble(PreambleStatus::Absent),
        event == BootEvent::Preamble(PreambleStatus::Corrupt) || event == BootEvent::Preamble(
            PreambleStatus::Unreadable,
        ) || !(event is Preamble) ==> s.advanced(event).pending == (BootAction::InitVfs {
            persistent: false,
        }),
{
    reveal(BootState::trust_advanced);
    reveal(BootState::at_passphrase);
    reveal(BootState::at_mount);
}

/// Law: without a display or a keypad nothing is asked for. A trusted device that was never
/// provisioned then mounts its plain storage; every other one runs from the initramfs.
pub proof fn law_nothing_is_asked_without_display_and_keypad(s: BootState, event: BootEvent)
    requires
        boot_ok(s),
        s.pending == BootAction::ProbePreamble,
        s.board.emmc_ok,
        !(s.trust.secure_boot_ok && s.board.display_ok && s.board.input_ok),
    ensures
        s.advanced(event).pending == (if s.trust.secure_boot_ok && (event == BootEvent::Preamble(
            PreambleStatus::Valid { has_verifier: false },
        ) || event == BootEvent::Preamble(PreambleStatus::Absent)) {
            BootAction::MountStorage(StorageKind::Plain)
        } else {
            BootAction::InitVfs { persistent: false }
        }),
{
    reveal(BootState::trust_advanced);
    reveal(BootState::at_passphrase);
    reveal(BootState::at_mount);
}

/// Law: on a medium, the right passphrase opens the encrypted payload and a wrong one opens
/// nothing; a wipe halts. A device on which a passphrase was set opens the encrypted payload,
/// and one on which none was set its plain storage.
pub proof fn law_the_passphrase_decides_what_is_mounted(s: BootState, event: BootEvent)
    requires
        boot_ok(s),
        s.board.emmc_ok,
    ensures
        s.pending == BootAction::VerifyPassphrase ==> s.advanced(event).pending == (match event {
            BootEvent::Succeeded => BootAction::MountStorage(StorageKind::Encrypted),
            BootEvent::WipeTriggered => BootAction::Halt { display: s.board.display_ok },
            _ => BootAction::InitVfs { persistent: false },
        }),
        s.pending == BootAction::SetUpPassphrase ==> s.advanced(event).pending == (match event {
            BootEvent::Succeeded => BootAction::MountStorage(StorageKind::Encrypted),
            _ => BootAction::MountStorage(StorageKind::Plain),
        }),
{
    reveal(BootState::trust_advanced);
    reveal(BootState::at_mount);
}

/// Law: with a verified or a missing boot image the boot goes on: to the preamble where
/// there is a medium, and else without asking or mounting anything. Anything else halts,
/// and the halt shows on the display where there is one.
pub proof fn law_the_image_decides_whether_it_goes_on(s: BootState, event: BootEvent)
    requires
        boot_ok(s),
        s.pending == BootAction::VerifyBootImage,
        s.trust.preamble == PreambleLoad::ReadFailed,
    ensures
        s.advanced(event).pending == (if event != BootEvent::Image(ImageVerdict::Verified) && event
            != BootEvent::Image(ImageVerdict::Absent) {
            BootAction::Halt { display: s.board.display_ok }
        } else if s.board.emmc_ok {
            BootAction::ProbePreamble
        } else {
            BootAction::InitVfs { persistent: false }
        }),
        s.advanced(event).trust.secure_boot_ok <==> s.trust.secure_boot_ok || (event
            == BootEvent::Image(ImageVerdict::Verified) && s.production_anchor),
{
    reveal(BootState::trust_advanced);
    reveal(BootState::at_passphrase);
    reveal(BootState::at_mount);
}

// ---------------------------------------------------------------------------
// Order
// ---------------------------------------------------------------------------

/// The actions that bring up the board, in order, and the verification behind them.
pub open spec fn board_order() -> Seq<BootAction> {
    seq![
        BootAction::EnableMmu,
        BootAction::InitPageAllocator,
        BootAction::InitHeap,
        BootAction::InitGic,
        BootAction::InitProcesses,
        BootAction::InitExceptions,
        BootAction::SeedCsprng,
        BootAction::ArmWatchdog,
        BootAction::RegisterDevices,
        BootAction::InitEmmc,
        BootAction::InitDisplay,
        BootAction::EnableKeypad,
        BootAction::VerifyBootImage,
    ]
}

/// The actions between the root and the programs, in order.
pub open spec fn services_order() -> Seq<BootAction> {
    seq![
        BootAction::ApplyRadioPolicy,
        BootAction::InitUsb,
        BootAction::BootModem,
        BootAction::ProbeWifi,
        BootAction::SmokeNetwork,
        BootAction::InitBluetooth,
        BootAction::InitGps,
        BootAction::VerifyUserspaceImage,
    ]
}

/// Law: the board is brought up in its order, whatever fails, and the image is verified
/// only then.
pub proof fn law_board_comes_up_in_order(production_anchor: bool, events: Seq<BootEvent>)
    requires
        events.len() <= 12,
    ensures
        after_events(BootState::fresh(production_anchor), events).pending
            == board_order()[events.len() as int],
    decreases events.len(),
{
    if events.len() > 0 {
        law_board_comes_up_in_order(production_anchor, events.drop_last());
        reveal(BootState::board_advanced);
    }
}

/// Law: behind the root come the radio policy, the links in their order and the check of
/// the programs' image, whatever fails.
pub proof fn law_services_come_up_in_order(s: BootState, events: Seq<BootEvent>)
    requires
        s.pending is InitVfs,
        1 <= events.len() <= 8,
    ensures
        after_events(s, events).pending == services_order()[events.len() - 1],
    decreases events.len(),
{
    reveal(BootState::services_advanced);
    if events.len() > 1 {
        law_services_come_up_in_order(s, events.drop_last());
    } else {
        assert(after_events(s, events.drop_last()) == s);
    }
}

/// Law: programs are started where their image is verified or the whole boot is trusted;
/// then first `init`, then the shell, whatever came of `init`. The boot ends in the service
/// loop with scheduling enabled, and tells it whether there is a display.
pub proof fn law_programs_start_in_order(s: BootState, event: BootEvent)
    ensures
        s.pending == BootAction::VerifyUserspaceImage ==> s.advanced(event).pending == (if event
            == BootEvent::Succeeded || s.trust.secure_boot_ok {
            BootAction::SpawnInit
        } else {
            BootAction::EnableScheduling
        }),
        s.pending == BootAction::SpawnInit ==> s.advanced(event).pending == BootAction::SpawnShell,
        s.pending == BootAction::SpawnShell ==> s.advanced(event).pending
            == BootAction::EnableScheduling,
        s.pending == BootAction::EnableScheduling ==> s.advanced(event).pending == (
        BootAction::EnterServiceLoop { display: s.board.display_ok }) && s.advanced(
            event,
        ).user.scheduling_enabled,
        s.pending is EnterServiceLoop ==> s.advanced(event) == s,
{
    reveal(BootState::services_advanced);
}

// ---------------------------------------------------------------------------
// What each action changes
// ---------------------------------------------------------------------------

/// Law: each part of the board reports its own driver and nothing else: its flag is what
/// its action came to, and stays so.
pub proof fn law_each_part_reports_its_own_driver(s: BootState, event: BootEvent)
    ensures
        ({
            let r = s.advanced(event);
            let ok = event == BootEvent::Succeeded;
            &&& r.core.mmu_ok <==> s.core.mmu_ok || s.pending == BootAction::EnableMmu
            &&& r.core.heap_ok <==> s.core.heap_ok || s.pending == BootAction::InitHeap
            &&& r.core.gic_ok <==> s.core.gic_ok || s.pending == BootAction::InitGic
            &&& s.pending == BootAction::InitExceptions ==> r.core.timer_ok == ok
            &&& s.pending != BootAction::InitExceptions ==> r.core.timer_ok == s.core.timer_ok
            &&& s.pending == BootAction::SeedCsprng ==> r.core.csprng_ok == ok
            &&& s.pending != BootAction::SeedCsprng ==> r.core.csprng_ok == s.core.csprng_ok
            &&& s.pending == BootAction::InitEmmc ==> r.board.emmc_ok == ok
            &&& s.pending != BootAction::InitEmmc ==> r.board.emmc_ok == s.board.emmc_ok
            &&& s.pending == BootAction::InitDisplay ==> r.board.display_ok == ok
            &&& s.pending != BootAction::InitDisplay ==> r.board.display_ok == s.board.display_ok
            &&& s.pending == BootAction::EnableKeypad ==> r.board.input_ok == ok
            &&& s.pending != BootAction::EnableKeypad ==> r.board.input_ok == s.board.input_ok
        }),
{
    match stage(s.pending) {
        Stage::Board => {
            lemma_core_reports(s, event);
            lemma_board_reports(s, event);
        },
        Stage::Trust => {
            lemma_trust_stage(s, event);
        },
        Stage::Services => {
            lemma_services_stage(s, event);
        },
        Stage::Over => {},
    }
}

proof fn lemma_core_reports(s: BootState, event: BootEvent)
    requires
        stage(s.pending) == Stage::Board,
    ensures
        ({
            let r = s.advanced(event).core;
            let ok = event == BootEvent::Succeeded;
            &&& r.mmu_ok <==> s.core.mmu_ok || s.pending == BootAction::EnableMmu
            &&& r.heap_ok <==> s.core.heap_ok || s.pending == BootAction::InitHeap
            &&& r.gic_ok <==> s.core.gic_ok || s.pending == BootAction::InitGic
            &&& s.pending == BootAction::InitExceptions ==> r.timer_ok == ok
            &&& s.pending != BootAction::InitExceptions ==> r.timer_ok == s.core.timer_ok
            &&& s.pending == BootAction::SeedCsprng ==> r.csprng_ok == ok
            &&& s.pending != BootAction::SeedCsprng ==> r.csprng_ok == s.core.csprng_ok
        }),
{
    reveal(BootState::board_advanced);
}

proof fn lemma_board_reports(s: BootState, event: BootEvent)
    requires
        stage(s.pending) == Stage::Board,
    ensures
        ({
            let r = s.advanced(event).board;
            let ok = event == BootEvent::Succeeded;
            &&& s.pending == BootAction::InitEmmc ==> r.emmc_ok == ok
            &&& s.pending != BootAction::InitEmmc ==> r.emmc_ok == s.board.emmc_ok
            &&& s.pending == BootAction::InitDisplay ==> r.display_ok == ok
            &&& s.pending != BootAction::InitDisplay ==> r.display_ok == s.board.display_ok
            &&& s.pending == BootAction::EnableKeypad ==> r.input_ok == ok
            &&& s.pending != BootAction::EnableKeypad ==> r.input_ok == s.board.input_ok
        }),
{
    reveal(BootState::board_advanced);
}

/// Law: each link reports its own driver and nothing else. Only a network that is ready for
/// production counts as a network.
pub proof fn law_each_link_reports_its_own_driver(s: BootState, event: BootEvent)
    ensures
        ({
            let r = s.advanced(event);
            let ok = event == BootEvent::Succeeded;
            &&& s.pending == BootAction::InitUsb ==> r.radio.usb_ok == ok
            &&& s.pending != BootAction::InitUsb ==> r.radio.usb_ok == s.radio.usb_ok
            &&& s.pending == BootAction::BootModem ==> r.radio.modem_ok == ok
            &&& s.pending != BootAction::BootModem ==> r.radio.modem_ok == s.radio.modem_ok
            &&& s.pending == BootAction::ProbeWifi ==> (r.radio.network_ok <==> event
                == BootEvent::Network(NetworkReadiness::ProductionReady))
            &&& s.pending != BootAction::ProbeWifi ==> r.radio.network_ok == s.radio.network_ok
            &&& s.pending == BootAction::SmokeNetwork ==> (r.radio.network_loopback_smoke_ok
                <==> event == BootEvent::Network(NetworkReadiness::LoopbackSmokeOnly))
            &&& s.pending != BootAction::SmokeNetwork ==> r.radio.network_loopback_smoke_ok
                == s.radio.network_loopback_smoke_ok
            &&& s.pending == BootAction::InitBluetooth ==> r.radio.bluetooth_ok == ok
            &&& s.pending != BootAction::InitBluetooth ==> r.radio.bluetooth_ok
                == s.radio.bluetooth_ok
            &&& s.pending == BootAction::InitGps ==> r.radio.gps_ok == ok
            &&& s.pending != BootAction::InitGps ==> r.radio.gps_ok == s.radio.gps_ok
            &&& r.trust.security_mode_ok <==> s.trust.security_mode_ok || s.pending
                == BootAction::ApplyRadioPolicy
        }),
{
    match stage(s.pending) {
        Stage::Board => {
            lemma_board_stage(s, event);
        },
        Stage::Trust => {
            lemma_trust_stage(s, event);
        },
        Stage::Services => {
            lemma_services_stage(s, event);
            reveal(BootState::services_advanced);
        },
        Stage::Over => {},
    }
}

/// Law: keys are loaded by nothing but a right or a newly set passphrase, only a newly set
/// one provisions the device, and the preamble is known from nothing but probing it or
/// writing it.
pub proof fn law_only_the_passphrase_unlocks(s: BootState, event: BootEvent)
    ensures
        ({
            let r = s.advanced(event);
            let ok = event == BootEvent::Succeeded;
            &&& r.trust.passphrase_ok <==> s.trust.passphrase_ok || (ok && (s.pending
                == BootAction::VerifyPassphrase || s.pending == BootAction::SetUpPassphrase))
            &&& r.trust.provisioned_this_boot <==> s.trust.provisioned_this_boot || (ok && s.pending
                == BootAction::SetUpPassphrase)
            &&& s.pending != BootAction::ProbePreamble && s.pending
                != BootAction::SetUpPassphrase ==> r.trust.preamble == s.trust.preamble
            &&& s.pending == BootAction::SetUpPassphrase ==> r.trust.preamble == (if ok {
                PreambleLoad::Provisioned
            } else {
                s.trust.preamble
            })
            &&& !mounts(s, event) ==> r.trust.encryption_ok == s.trust.encryption_ok
            &&& r.production_anchor == s.production_anchor
        }),
{
    match stage(s.pending) {
        Stage::Board => {
            lemma_board_stage(s, event);
        },
        Stage::Trust => {
            lemma_trust_stage(s, event);
        },
        Stage::Services => {
            lemma_services_stage(s, event);
        },
        Stage::Over => {},
    }
}

/// Law: each program that was started is counted once, each that is missing once as missing,
/// and the shell is supervised under the PID that it was started with. Nothing else counts
/// programs.
pub proof fn law_each_program_counts_once(s: BootState, event: BootEvent)
    requires
        s.counts_ok(),
    ensures
        ({
            let r = s.advanced(event);
            let starts = s.pending == BootAction::SpawnInit || s.pending == BootAction::SpawnShell;
            &&& r.user.processes_spawned == s.user.processes_spawned + (if starts && event
                is Spawned {
                1int
            } else {
                0
            })
            &&& r.user.userspace_entries_missing == s.user.userspace_entries_missing + (if starts
                && event == BootEvent::Missing {
                1int
            } else {
                0
            })
            &&& s.pending == BootAction::SpawnShell ==> match event {
                BootEvent::Spawned(pid) => r.user.supervised_shell == Some(pid),
                _ => r.user.supervised_shell is None,
            }
            &&& s.pending != BootAction::SpawnShell ==> r.user.supervised_shell
                == s.user.supervised_shell
            &&& s.pending == BootAction::VerifyUserspaceImage && (event == BootEvent::Succeeded
                || s.trust.secure_boot_ok) ==> (r.user.userspace_image_ok <==> event
                == BootEvent::Succeeded)
            &&& s.pending != BootAction::VerifyUserspaceImage ==> r.user.userspace_image_ok
                == s.user.userspace_image_ok
        }),
{
    match stage(s.pending) {
        Stage::Board => {
            lemma_board_stage(s, event);
        },
        Stage::Trust => {
            lemma_trust_stage(s, event);
        },
        Stage::Services => {
            lemma_services_stage(s, event);
            reveal(BootState::services_advanced);
        },
        Stage::Over => {},
    }
}

} // verus!
