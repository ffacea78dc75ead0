//! Kernel init: the boot sequence and its passphrase gate.
//!
//! The sequence brings up all subsystems in dependency order, each of them
//! fault-isolated: a driver that fails is noted and skipped. [`BootState`] decides
//! what is done next; the caller performs the [`BootAction`] and hands back what
//! came of it as a [`BootEvent`]. A boot image that fails its verification halts the
//! boot for good.
use crate::key_manager::{
    label_verify, volatile_zero_slice, KeyManager, KeyModel, SecureKey,
};
use crate::keypad::Key;
use crate::kinit_plan::{
    boot_passphrase_plan, classify_preamble, may_format_encrypted_lfs, mount_plan, passphrase_plan,
    planned_mount, preamble_meaning, BootPassphrasePlan, MountPlan, PreambleLoad, PreambleStatus,
    MIN_BOOT_PASSPHRASE_LEN, MODEM_BOOT_TIMEOUT_MS,
};
use crate::security::{derived_under, hkdf, PinKdf, SecurityError, KEY_SIZE};
use crate::security_mode::SecurityMode;
use crate::text::{copy_bytes, same_bytes};
use vstd::prelude::*;

verus! {

broadcast use vstd::string::group_string_axioms;

// ---------------------------------------------------------------------------
// Boot sequence
// ---------------------------------------------------------------------------

/// The two ways in which the userdata partition is mounted.
#[derive(Clone, Copy, PartialEq, Eq, Structural, Debug)]
pub enum StorageKind {
    /// The encrypted payload.
    Encrypted,
    /// The plain file system.
    Plain,
}

/// What verifying the boot image found.
#[derive(Clone, Copy, PartialEq, Eq, Structural, Debug)]
pub enum ImageVerdict {
    /// The image carries a valid signature of the boot anchor.
    Verified,
    /// There is no boot medium.
    Absent,
    /// The image is there and is unreadable or fails its verification.
    Refused,
}

/// How far the network is usable.
#[derive(Clone, Copy, PartialEq, Eq, Structural, Debug)]
pub enum NetworkReadiness {
    /// The data path works.
    ProductionReady,
    /// There is no data path.
    HardwareUnavailable,
    /// Only the loopback works.
    LoopbackSmokeOnly,
}

/// What the boot does next.
#[derive(Clone, Copy, PartialEq, Eq, Structural, Debug)]
pub enum BootAction {
    EnableMmu,
    InitPageAllocator,
    InitHeap,
    InitGic,
    InitProcesses,
    /// Install the exception handlers and start the timer; succeeds where the timer
    /// advances.
    InitExceptions,
    SeedCsprng,
    ArmWatchdog,
    RegisterDevices,
    InitEmmc,
    InitDisplay,
    EnableKeypad,
    VerifyBootImage,
    /// Read the secrets preamble, without writing.
    ProbePreamble,
    /// Run the passphrase gate of a provisioned device.
    VerifyPassphrase,
    /// Set a passphrase on an unprovisioned device.
    SetUpPassphrase,
    MountStorage(StorageKind),
    FormatStorage(StorageKind),
    RemountStorage(StorageKind),
    /// Set up the root: the mounted storage, or else the image-resident initramfs.
    InitVfs { persistent: bool },
    /// Apply the radio policy of the security mode, before any radio comes up.
    ApplyRadioPolicy,
    InitUsb,
    BootModem,
    ProbeWifi,
    SmokeNetwork,
    InitBluetooth,
    InitGps,
    /// Verify the signature of the image-resident initramfs.
    VerifyUserspaceImage,
    SpawnInit,
    SpawnShell,
    EnableScheduling,
    /// The boot is over: hand over to the service loop.
    EnterServiceLoop { display: bool },
    /// The boot has failed for good: show it and park.
    Halt { display: bool },
}

/// What came of an action.
#[derive(Clone, Copy, PartialEq, Eq, Structural, Debug)]
pub enum BootEvent {
    Succeeded,
    Failed,
    /// The boot image was looked at.
    Image(ImageVerdict),
    /// The preamble was read.
    Preamble(PreambleStatus),
    /// The limit of passphrase attempts was reached and the data wiped.
    WipeTriggered,
    /// The storage has no readable superblock.
    NoSuperblock,
    /// The network was looked at.
    Network(NetworkReadiness),
    /// A process was started under a PID.
    Spawned(u8),
    /// The program is not in the root file system.
    Missing,
}

/// The parts without which nothing runs.
#[derive(Clone, Copy, PartialEq, Eq, Structural, Debug)]
pub struct CoreStatus {
    pub mmu_ok: bool,
    pub heap_ok: bool,
    pub gic_ok: bool,
    pub timer_ok: bool,
    pub csprng_ok: bool,
}

/// Storage, display and keypad.
#[derive(Clone, Copy, PartialEq, Eq, Structural, Debug)]
pub struct BoardStatus {
    pub emmc_ok: bool,
    pub display_ok: bool,
    pub input_ok: bool,
}

/// What is trusted and unlocked.
#[derive(Clone, Copy, PartialEq, Eq, Structural, Debug)]
pub struct TrustStatus {
    /// The boot image was verified under a production anchor.
    pub secure_boot_ok: bool,
    /// What the secrets preamble turned out to be.
    pub preamble: PreambleLoad,
    /// The keys are loaded.
    pub passphrase_ok: bool,
    /// The passphrase was set in this boot.
    pub provisioned_this_boot: bool,
    /// The encrypted payload is mounted.
    pub encryption_ok: bool,
    /// The radio policy is in place.
    pub security_mode_ok: bool,
}

/// The links to the outside.
#[derive(Clone, Copy, PartialEq, Eq, Structural, Debug)]
pub struct RadioStatus {
    pub usb_ok: bool,
    pub modem_ok: bool,
    pub network_ok: bool,
    pub network_loopback_smoke_ok: bool,
    pub bluetooth_ok: bool,
    pub gps_ok: bool,
}

/// The programs.
#[derive(Clone, Copy, PartialEq, Eq, Structural, Debug)]
pub struct UserStatus {
    /// The image-resident initramfs was verified.
    pub userspace_image_ok: bool,
    pub processes_spawned: u8,
    pub userspace_entries_missing: u8,
    /// The PID of the supervised shell.
    pub supervised_shell: Option<u8>,
    /// The scheduler may switch away from the boot context.
    pub scheduling_enabled: bool,
}

/// The state of the boot.
#[derive(Clone, Copy, PartialEq, Eq, Structural, Debug)]
pub struct BootState {
    /// What is to be done now.
    pub pending: BootAction,
    /// Whether the boot anchor is a production key.
    pub production_anchor: bool,
    pub core: CoreStatus,
    pub board: BoardStatus,
    pub trust: TrustStatus,
    pub radio: RadioStatus,
    pub user: UserStatus,
}

impl BootState {
    /// Before anything was done.
    pub open spec fn fresh(production_anchor: bool) -> BootState {
        BootState {
            pending: BootAction::EnableMmu,
            production_anchor,
            core: CoreStatus {
                mmu_ok: false,
                heap_ok: false,
                gic_ok: false,
                timer_ok: false,
                csprng_ok: false,
            },
            board: BoardStatus {
                emmc_ok: false,
                display_ok: false,
                input_ok: false,
            },
            trust: TrustStatus {
                secure_boot_ok: false,
                preamble: PreambleLoad::ReadFailed,
                passphrase_ok: false,
                provisioned_this_boot: false,
                encryption_ok: false,
                security_mode_ok: false,
            },
            radio: RadioStatus {
                usb_ok: false,
                modem_ok: false,
                network_ok: false,
                network_loopback_smoke_ok: false,
                bluetooth_ok: false,
                gps_ok: false,
            },
            user: UserStatus {
                userspace_image_ok: false,
                processes_spawned: 0,
                userspace_entries_missing: 0,
                supervised_shell: None,
                scheduling_enabled: false,
            },
        }
    }

    /// The same, with another action to do.
    pub open spec fn then_do(self, action: BootAction) -> BootState {
        BootState { pending: action, ..self }
    }

    /// On to the passphrase gate.
    #[verifier::opaque]
    pub open spec fn at_passphrase(self) -> BootState {
        match passphrase_plan(
            self.trust.secure_boot_ok,
            self.board.display_ok,
            self.board.input_ok,
            self.trust.preamble,
        ) {
            BootPassphrasePlan::Skip => self.at_mount(),
            BootPassphrasePlan::Verify => self.then_do(BootAction::VerifyPassphrase),
            BootPassphrasePlan::FirstBootSetup => self.then_do(BootAction::SetUpPassphrase),
        }
    }

    /// On to the mount.
    #[verifier::opaque]
    pub open spec fn at_mount(self) -> BootState {
        match planned_mount(
            self.board.emmc_ok,
            self.trust.secure_boot_ok,
            self.trust.preamble,
            self.trust.passphrase_ok,
        ) {
            MountPlan::Encrypted => self.then_do(BootAction::MountStorage(StorageKind::Encrypted)),
            MountPlan::Plain => self.then_do(BootAction::MountStorage(StorageKind::Plain)),
            MountPlan::RamfsFallback => self.then_do(BootAction::InitVfs { persistent: false }),
        }
    }

    /// On with mounted storage.
    pub open spec fn mounted(self, kind: StorageKind) -> BootState {
        BootState {
            trust: TrustStatus { encryption_ok: kind == StorageKind::Encrypted, ..self.trust },
            ..self.then_do(BootAction::InitVfs { persistent: true })
        }
    }

    /// What happens where the storage has no readable superblock: it is formatted,
    /// unless it may hold data.
    pub open spec fn unformatted(self, kind: StorageKind) -> BootState {
        if kind == StorageKind::Encrypted && !(self.trust.preamble == PreambleLoad::Provisioned
            && self.trust.provisioned_this_boot) {
            self.then_do(BootAction::InitVfs { persistent: false })
        } else {
            self.then_do(BootAction::FormatStorage(kind))
        }
    }

    /// What verifying the boot image leads to. Trust is established only by a
    /// verified image under a production anchor; a refused image halts.
    pub open spec fn judged(self, event: BootEvent) -> BootState {
        match event {
            BootEvent::Image(ImageVerdict::Verified) => BootState {
                trust: TrustStatus { secure_boot_ok: self.production_anchor, ..self.trust },
                ..self
            }.past_verification(),
            BootEvent::Image(ImageVerdict::Absent) => self.past_verification(),
            _ => self.then_do(BootAction::Halt { display: self.board.display_ok }),
        }
    }

    /// On from the verification: the preamble is probed where there is a medium.
    pub open spec fn past_verification(self) -> BootState {
        if self.board.emmc_ok {
            self.then_do(BootAction::ProbePreamble)
        } else {
            self.at_passphrase()
        }
    }

    /// What the start of a program leads to.
    pub open spec fn counted(self, event: BootEvent, next: BootAction) -> BootState {
        match event {
            BootEvent::Spawned(_) => BootState {
                user: UserStatus {
                    processes_spawned: (self.user.processes_spawned + 1) as u8,
                    ..self.user
                },
                ..self.then_do(next)
            },
            BootEvent::Missing => BootState {
                user: UserStatus {
                    userspace_entries_missing: (self.user.userspace_entries_missing + 1) as u8,
                    ..self.user
                },
                ..self.then_do(next)
            },
            _ => self.then_do(next),
        }
    }

    /// The state after an action that brings up the board.
    #[verifier::opaque]
    pub open spec fn board_advanced(self, event: BootEvent) -> BootState {
        let ok = event == BootEvent::Succeeded;
        match self.pending {
            BootAction::EnableMmu => BootState {
                core: CoreStatus { mmu_ok: true, ..self.core },
                ..self.then_do(BootAction::InitPageAllocator)
            },
            BootAction::InitPageAllocator => self.then_do(BootAction::InitHeap),
            BootAction::InitHeap => BootState {
                core: CoreStatus { heap_ok: true, ..self.core },
                ..self.then_do(BootAction::InitGic)
            },
            BootAction::InitGic => BootState {
                core: CoreStatus { gic_ok: true, ..self.core },
                ..self.then_do(BootAction::InitProcesses)
            },
            BootAction::InitProcesses => self.then_do(BootAction::InitExceptions),
            BootAction::InitExceptions => BootState {
                core: CoreStatus { timer_ok: ok, ..self.core },
                ..self.then_do(BootAction::SeedCsprng)
            },
            BootAction::SeedCsprng => BootState {
                core: CoreStatus { csprng_ok: ok, ..self.core },
                ..self.then_do(BootAction::ArmWatchdog)
            },
            BootAction::ArmWatchdog => self.then_do(BootAction::RegisterDevices),
            BootAction::RegisterDevices => self.then_do(BootAction::InitEmmc),
            BootAction::InitEmmc => BootState {
                board: BoardStatus { emmc_ok: ok, ..self.board },
                ..self.then_do(BootAction::InitDisplay)
            },
            BootAction::InitDisplay => BootState {
                board: BoardStatus { display_ok: ok, ..self.board },
                ..self.then_do(BootAction::EnableKeypad)
            },
            BootAction::EnableKeypad => BootState {
                board: BoardStatus { input_ok: ok, ..self.board },
                ..self.then_do(BootAction::VerifyBootImage)
            },
            _ => self,
        }
    }

    /// The state after an action that decides on trust, or opens the storage.
    #[verifier::opaque]
    pub open spec fn trust_advanced(self, event: BootEvent) -> BootState {
        let ok = event == BootEvent::Succeeded;
        match self.pending {
            BootAction::VerifyBootImage => self.judged(event),
            BootAction::ProbePreamble => BootState { trust: TrustStatus { preamble: match event {
                    BootEvent::Preamble(status) => preamble_meaning(status),
                    _ => PreambleLoad::ReadFailed,
                }, ..self.trust }, ..self }.at_passphrase(),
            BootAction::VerifyPassphrase => match event {
                BootEvent::Succeeded => BootState {
                    trust: TrustStatus { passphrase_ok: true, ..self.trust },
                    ..self
                }.at_mount(),
                BootEvent::WipeTriggered => self.then_do(
                    BootAction::Halt { display: self.board.display_ok },
                ),
                _ => self.at_mount(),
            },
            BootAction::SetUpPassphrase => if ok {
                BootState {
                    trust: TrustStatus {
                        passphrase_ok: true,
                        preamble: PreambleLoad::Provisioned,
                        provisioned_this_boot: true,
                        ..self.trust
                    },
                    ..self
                }.at_mount()
            } else {
                self.at_mount()
            },
            BootAction::MountStorage(kind) => match event {
                BootEvent::Succeeded => self.mounted(kind),
                BootEvent::NoSuperblock => self.unformatted(kind),
                _ => self.then_do(BootAction::InitVfs { persistent: false }),
            },
            BootAction::FormatStorage(kind) => if ok {
                self.then_do(BootAction::RemountStorage(kind))
            } else {
                self.then_do(BootAction::InitVfs { persistent: false })
            },
            BootAction::RemountStorage(kind) => if ok {
                self.mounted(kind)
            } else {
                self.then_do(BootAction::InitVfs { persistent: false })
            },
            _ => self,
        }
    }

    /// The state after an action that brings up services and programs.
    #[verifier::opaque]
    pub open spec fn services_advanced(self, event: BootEvent) -> BootState {
        let ok = event == BootEvent::Succeeded;
        match self.pending {
            BootAction::InitVfs { .. } => self.then_do(BootAction::ApplyRadioPolicy),
            BootAction::ApplyRadioPolicy => BootState {
                trust: TrustStatus { security_mode_ok: true, ..self.trust },
                ..self.then_do(BootAction::InitUsb)
            },
            BootAction::InitUsb => BootState {
                radio: RadioStatus { usb_ok: ok, ..self.radio },
                ..self.then_do(BootAction::BootModem)
            },
            BootAction::BootModem => BootState {
                radio: RadioStatus { modem_ok: ok, ..self.radio },
                ..self.then_do(BootAction::ProbeWifi)
            },
            BootAction::ProbeWifi => BootState {
                radio: RadioStatus {
                    network_ok: event == BootEvent::Network(NetworkReadiness::ProductionReady),
                    ..self.radio
                },
                ..self.then_do(BootAction::SmokeNetwork)
            },
            BootAction::SmokeNetwork => BootState {
                radio: RadioStatus {
                    network_loopback_smoke_ok: event == BootEvent::Network(
                        NetworkReadiness::LoopbackSmokeOnly,
                    ),
                    ..self.radio
                },
                ..self.then_do(BootAction::InitBluetooth)
            },
            BootAction::InitBluetooth => BootState {
                radio: RadioStatus { bluetooth_ok: ok, ..self.radio },
                ..self.then_do(BootAction::InitGps)
            },
            BootAction::InitGps => BootState {
                radio: RadioStatus { gps_ok: ok, ..self.radio },
                ..self.then_do(BootAction::VerifyUserspaceImage)
            },
            BootAction::VerifyUserspaceImage => if ok || self.trust.secure_boot_ok {
                BootState {
                    user: UserStatus { userspace_image_ok: ok, ..self.user },
                    ..self.then_do(BootAction::SpawnInit)
                }
            } else {
                self.then_do(BootAction::EnableScheduling)
            },
            BootAction::SpawnInit => self.counted(event, BootAction::SpawnShell),
            BootAction::SpawnShell => {
                let next = self.counted(event, BootAction::EnableScheduling);
                BootState {
                    user: UserStatus {
                        supervised_shell: match event {
                            BootEvent::Spawned(pid) => Some(pid),
                            _ => None,
                        },
                        ..next.user
                    },
                    ..next
                }
            },
            BootAction::EnableScheduling => BootState {
                user: UserStatus { scheduling_enabled: true, ..self.user },
                ..self.then_do(BootAction::EnterServiceLoop { display: self.board.display_ok })
            },
            _ => self,
        }
    }

    /// The state after the pending action came to an end. The last two actions have no
    /// end.
    pub open spec fn advanced(self, event: BootEvent) -> BootState {
        match stage(self.pending) {
            Stage::Board => self.board_advanced(event),
            Stage::Trust => self.trust_advanced(event),
            Stage::Services => self.services_advanced(event),
            Stage::Over => self,
        }
    }

    /// The counters of programs stay small.
    pub open spec fn counts_ok(self) -> bool {
        &&& self.user.processes_spawned <= 2
        &&& self.user.userspace_entries_missing <= 2
        &&& self.pending == BootAction::SpawnInit ==> self.user.processes_spawned == 0
            && self.user.userspace_entries_missing == 0
        &&& self.pending == BootAction::SpawnShell ==> self.user.processes_spawned
            + self.user.userspace_entries_missing <= 1
        &&& before_spawn(self.pending) ==> self.user.processes_spawned == 0
            && self.user.userspace_entries_missing == 0
    }

    /// Create the state of a boot, with its boot anchor.
    pub fn new(production_anchor: bool) -> (r: Self)
        ensures
            r == BootState::fresh(production_anchor),
            r.counts_ok(),
    {
        BootState {
            pending: BootAction::EnableMmu,
            production_anchor,
            core: CoreStatus {
                mmu_ok: false,
                heap_ok: false,
                gic_ok: false,
                timer_ok: false,
                csprng_ok: false,
            },
            board: BoardStatus {
                emmc_ok: false,
                display_ok: false,
                input_ok: false,
            },
            trust: TrustStatus {
                secure_boot_ok: false,
                preamble: PreambleLoad::ReadFailed,
                passphrase_ok: false,
                provisioned_this_boot: false,
                encryption_ok: false,
                security_mode_ok: false,
            },
            radio: RadioStatus {
                usb_ok: false,
                modem_ok: false,
                network_ok: false,
                network_loopback_smoke_ok: false,
                bluetooth_ok: false,
                gps_ok: false,
            },
            user: UserStatus {
                userspace_image_ok: false,
                processes_spawned: 0,
                userspace_entries_missing: 0,
                supervised_shell: None,
                scheduling_enabled: false,
            },
        }
    }

    /// On to the passphrase gate.
    fn enter_passphrase(&mut self)
        ensures
            *final(self) == old(self).at_passphrase(),
    {
        reveal(BootState::at_passphrase);
        match boot_passphrase_plan(
            self.trust.secure_boot_ok,
            self.board.display_ok,
            self.board.input_ok,
            self.trust.preamble,
        ) {
            BootPassphrasePlan::Skip => {
                self.enter_mount();
            },
            BootPassphrasePlan::Verify => {
                self.pending = BootAction::VerifyPassphrase;
            },
            BootPassphrasePlan::FirstBootSetup => {
                self.pending = BootAction::SetUpPassphrase;
            },
        }
    }

    /// On to the mount.
    fn enter_mount(&mut self)
        ensures
            *final(self) == old(self).at_mount(),
    {
        reveal(BootState::at_mount);
        self.pending = match mount_plan(
            self.board.emmc_ok,
            self.trust.secure_boot_ok,
            self.trust.preamble,
            self.trust.passphrase_ok,
        ) {
            MountPlan::Encrypted => BootAction::MountStorage(StorageKind::Encrypted),
            MountPlan::Plain => BootAction::MountStorage(StorageKind::Plain),
            MountPlan::RamfsFallback => BootAction::InitVfs { persistent: false },
        };
    }

    /// On with mounted storage.
    fn enter_mounted(&mut self, kind: StorageKind)
        ensures
            *final(self) == old(self).mounted(kind),
    {
        self.trust.encryption_ok = kind == StorageKind::Encrypted;
        self.pending = BootAction::InitVfs { persistent: true };
    }

    /// What happens where the storage has no readable superblock.
    fn enter_unformatted(&mut self, kind: StorageKind)
        ensures
            *final(self) == old(self).unformatted(kind),
    {
        self.pending = if kind == StorageKind::Encrypted && !may_format_encrypted_lfs(
            self.trust.preamble,
            self.trust.provisioned_this_boot,
        ) {
            BootAction::InitVfs { persistent: false }
        } else {
            BootAction::FormatStorage(kind)
        };
    }

    /// What verifying the boot image leads to.
    fn judge(&mut self, event: BootEvent)
        ensures
            *final(self) == old(self).judged(event),
    {
        match event {
            BootEvent::Image(ImageVerdict::Verified) => {
                self.trust.secure_boot_ok = self.production_anchor;
            },
            BootEvent::Image(ImageVerdict::Absent) => {},
            _ => {
                self.pending = BootAction::Halt { display: self.board.display_ok };
                return ;
            },
        }
        if self.board.emmc_ok {
            self.pending = BootAction::ProbePreamble;
        } else {
            self.enter_passphrase();
        }
    }

    /// What the start of a program leads to.
    fn count(self, event: BootEvent, next: BootAction) -> (r: BootState)
        requires
            self.user.processes_spawned < 255,
            self.user.userspace_entries_missing < 255,
        ensures
            r == self.counted(event, next),
    {
        match event {
            BootEvent::Spawned(_) => BootState {
                user: UserStatus {
                    processes_spawned: self.user.processes_spawned + 1,
                    ..self.user
                },
                pending: next,
                ..self
            },
            BootEvent::Missing => BootState {
                user: UserStatus {
                    userspace_entries_missing: self.user.userspace_entries_missing + 1,
                    ..self.user
                },
                pending: next,
                ..self
            },
            _ => BootState { pending: next, ..self },
        }
    }

    /// What comes after an action that brings up the board.
    fn next_board(self, event: BootEvent) -> (r: BootState)
        ensures
            r == self.board_advanced(event),
    {
        reveal(BootState::board_advanced);
        let ok: bool = event == BootEvent::Succeeded;
        match self.pending {
            BootAction::EnableMmu => BootState {
                core: CoreStatus { mmu_ok: true, ..self.core },
                pending: BootAction::InitPageAllocator,
                ..self
            },
            BootAction::InitPageAllocator => BootState { pending: BootAction::InitHeap, ..self },
            BootAction::InitHeap => BootState {
                core: CoreStatus { heap_ok: true, ..self.core },
                pending: BootAction::InitGic,
                ..self
            },
            BootAction::InitGic => BootState {
                core: CoreStatus { gic_ok: true, ..self.core },
                pending: BootAction::InitProcesses,
                ..self
            },
            BootAction::InitProcesses => BootState { pending: BootAction::InitExceptions, ..self },
            BootAction::InitExceptions => BootState {
                core: CoreStatus { timer_ok: ok, ..self.core },
                pending: BootAction::SeedCsprng,
                ..self
            },
            BootAction::SeedCsprng => BootState {
                core: CoreStatus { csprng_ok: ok, ..self.core },
                pending: BootAction::ArmWatchdog,
                ..self
            },
            BootAction::ArmWatchdog => BootState { pending: BootAction::RegisterDevices, ..self },
            BootAction::RegisterDevices => BootState { pending: BootAction::InitEmmc, ..self },
            BootAction::InitEmmc => BootState {
                board: BoardStatus { emmc_ok: ok, ..self.board },
                pending: BootAction::InitDisplay,
                ..self
            },
            BootAction::InitDisplay => BootState {
                board: BoardStatus { display_ok: ok, ..self.board },
                pending: BootAction::EnableKeypad,
                ..self
            },
            BootAction::EnableKeypad => BootState {
                board: BoardStatus { input_ok: ok, ..self.board },
                pending: BootAction::VerifyBootImage,
                ..self
            },
            _ => self,
        }
    }

    /// Take over what came of a decision on trust, or of opening the storage.
    fn advance_trust(&mut self, event: BootEvent)
        ensures
            *final(self) == old(self).trust_advanced(event),
    {
        reveal(BootState::trust_advanced);
        let ok: bool = event == BootEvent::Succeeded;
        match self.pending {
            BootAction::VerifyBootImage => {
                self.judge(event);
            },
            BootAction::ProbePreamble => {
                self.trust.preamble = match event {
                    BootEvent::Preamble(status) => classify_preamble(status),
                    _ => PreambleLoad::ReadFailed,
                };
                self.enter_passphrase();
            },
            BootAction::VerifyPassphrase => {
                match event {
                    BootEvent::Succeeded => {
                        self.trust.passphrase_ok = true;
                        self.enter_mount();
                    },
                    BootEvent::WipeTriggered => {
                        self.pending = BootAction::Halt { display: self.board.display_ok };
                    },
                    _ => {
                        self.enter_mount();
                    },
                }
            },
            BootAction::SetUpPassphrase => {
                if ok {
                    self.trust.passphrase_ok = true;
                    self.trust.preamble = PreambleLoad::Provisioned;
                    self.trust.provisioned_this_boot = true;
                }
                self.enter_mount();
            },
            BootAction::MountStorage(kind) => {
                match event {
                    BootEvent::Succeeded => {
                        self.enter_mounted(kind);
                    },
                    BootEvent::NoSuperblock => {
                        self.enter_unformatted(kind);
                    },
                    _ => {
                        self.pending = BootAction::InitVfs { persistent: false };
                    },
                }
            },
            BootAction::FormatStorage(kind) => {
                self.pending = if ok {
                    BootAction::RemountStorage(kind)
                } else {
                    BootAction::InitVfs { persistent: false }
                };
            },
            BootAction::RemountStorage(kind) => {
                if ok {
                    self.enter_mounted(kind);
                } else {
                    self.pending = BootAction::InitVfs { persistent: false };
                }
            },
            _ => {},
        }
    }

    /// What comes after an action that brings up services and programs.
    fn next_services(self, event: BootEvent) -> (r: BootState)
        requires
            self.counts_ok(),
        ensures
            r == self.services_advanced(event),
    {
        reveal(BootState::services_advanced);
        let ok: bool = event == BootEvent::Succeeded;
        match self.pending {
            BootAction::InitVfs { .. } => BootState {
                pending: BootAction::ApplyRadioPolicy,
                ..self
            },
            BootAction::ApplyRadioPolicy => BootState {
                trust: TrustStatus { security_mode_ok: true, ..self.trust },
                pending: BootAction::InitUsb,
                ..self
            },
            BootAction::InitUsb => BootState {
                radio: RadioStatus { usb_ok: ok, ..self.radio },
                pending: BootAction::BootModem,
                ..self
            },
            BootAction::BootModem => BootState {
                radio: RadioStatus { modem_ok: ok, ..self.radio },
                pending: BootAction::ProbeWifi,
                ..self
            },
            BootAction::ProbeWifi => BootState {
                radio: RadioStatus {
                    network_ok: event == BootEvent::Network(NetworkReadiness::ProductionReady),
                    ..self.radio
                },
                pending: BootAction::SmokeNetwork,
                ..self
            },
            BootAction::SmokeNetwork => BootState {
                radio: RadioStatus {
                    network_loopback_smoke_ok: event == BootEvent::Network(
                        NetworkReadiness::LoopbackSmokeOnly,
                    ),
                    ..self.radio
                },
                pending: BootAction::InitBluetooth,
                ..self
            },
            BootAction::InitBluetooth => BootState {
                radio: RadioStatus { bluetooth_ok: ok, ..self.radio },
                pending: BootAction::InitGps,
                ..self
            },
            BootAction::InitGps => BootState {
                radio: RadioStatus { gps_ok: ok, ..self.radio },
                pending: BootAction::VerifyUserspaceImage,
                ..self
            },
            BootAction::VerifyUserspaceImage => if ok || self.trust.secure_boot_ok {
                BootState {
                    user: UserStatus { userspace_image_ok: ok, ..self.user },
                    pending: BootAction::SpawnInit,
                    ..self
                }
            } else {
                BootState { pending: BootAction::EnableScheduling, ..self }
            },
            BootAction::SpawnInit => self.count(event, BootAction::SpawnShell),
            BootAction::SpawnShell => {
                let shell: Option<u8> = match event {
                    BootEvent::Spawned(pid) => Some(pid),
                    _ => None,
                };
                let next = self.count(event, BootAction::EnableScheduling);
                BootState { user: UserStatus { supervised_shell: shell, ..next.user }, ..next }
            },
            BootAction::EnableScheduling => BootState {
                user: UserStatus { scheduling_enabled: true, ..self.user },
                pending: BootAction::EnterServiceLoop { display: self.board.display_ok },
                ..self
            },
            _ => self,
        }
    }

    /// Take over what came of the pending action.
    pub fn advance(&mut self, event: BootEvent)
        requires
            old(self).counts_ok(),
        ensures
            *final(self) == old(self).advanced(event),
            final(self).counts_ok(),
    {
        proof {
            lemma_counts(*self, event);
        }
        match stage_of(self.pending) {
            Stage::Board => {
                *self = self.next_board(event);
            },
            Stage::Trust => {
                self.advance_trust(event);
            },
            Stage::Services => {
                *self = self.next_services(event);
            },
            Stage::Over => {},
        }
    }

    /// How many of the subsystems that are counted came up.
    pub open spec fn count_of_ok(self) -> int {
        self.core.count_of_ok() + self.board.count_of_ok() + self.trust.count_of_ok()
            + self.radio.count_of_ok()
    }

    /// How many of the subsystems that are counted came up.
    pub fn ok_count(&self) -> (r: u32)
        ensures
            r == self.count_of_ok(),
            r <= 17,
    {
        self.core.ok_count() + self.board.ok_count() + self.trust.ok_count()
            + self.radio.ok_count()
    }

    /// The number of subsystems that are counted.
    pub fn total_subsystems(&self) -> (r: u32)
        ensures
            r == 17,
    {
        17
    }

    /// The notes of the boot summary on what is missing.
    pub open spec fn notes(self) -> Seq<Seq<char>> {
        let a = if self.core.csprng_ok {
            Seq::empty()
        } else {
            seq![" NOTE: CSPRNG unseeded, radio identity randomization disabled\r\n"@]
        };
        let b = if self.board.display_ok {
            a
        } else {
            a.push(" NOTE: display unavailable, USB serial only\r\n"@)
        };
        let c = if self.radio.modem_ok {
            b
        } else {
            b.push(" NOTE: modem unavailable, no phone functions\r\n"@)
        };
        let d = if self.radio.network_ok {
            c
        } else {
            c.push(" NOTE: network unavailable, no connectivity\r\n"@)
        };
        if self.radio.network_loopback_smoke_ok && !self.radio.network_ok {
            d.push(" NOTE: DHCP/DNS smoke used loopback only; WiFi not wired\r\n"@)
        } else {
            d
        }
    }

    /// The notes of the boot summary on what is missing.
    pub fn boot_notes(&self) -> (r: Vec<&'static str>)
        ensures
            r@.map_values(|s: &'static str| s@) == self.notes(),
    {
        let ghost text = |s: &'static str| s@;
        let mut out: Vec<&'static str> = Vec::new();
        assert(out@.map_values(text) =~= Seq::<Seq<char>>::empty());
        if !self.core.csprng_ok {
            out.push(" NOTE: CSPRNG unseeded, radio identity randomization disabled\r\n");
            assert(out@.map_values(text)
                =~= seq![" NOTE: CSPRNG unseeded, radio identity randomization disabled\r\n"@]);
        }
        let ghost a = out@;
        if !self.board.display_ok {
            out.push(" NOTE: display unavailable, USB serial only\r\n");
            assert(out@.map_values(text) =~= a.map_values(text).push(
                " NOTE: display unavailable, USB serial only\r\n"@,
            ));
        }
        let ghost b = out@;
        if !self.radio.modem_ok {
            out.push(" NOTE: modem unavailable, no phone functions\r\n");
            assert(out@.map_values(text) =~= b.map_values(text).push(
                " NOTE: modem unavailable, no phone functions\r\n"@,
            ));
        }
        let ghost c = out@;
        if !self.radio.network_ok {
            out.push(" NOTE: network unavailable, no connectivity\r\n");
            assert(out@.map_values(text) =~= c.map_values(text).push(
                " NOTE: network unavailable, no connectivity\r\n"@,
            ));
        }
        let ghost d = out@;
        if self.radio.network_loopback_smoke_ok && !self.radio.network_ok {
            out.push(" NOTE: DHCP/DNS smoke used loopback only; WiFi not wired\r\n");
            assert(out@.map_values(text) =~= d.map_values(text).push(
                " NOTE: DHCP/DNS smoke used loopback only; WiFi not wired\r\n"@,
            ));
        }
        out
    }
}

impl CoreStatus {
    /// How many of these came up.
    pub open spec fn count_of_ok(self) -> int {
        one(self.mmu_ok) + one(self.heap_ok) + one(self.gic_ok) + one(self.timer_ok) + one(
            self.csprng_ok,
        )
    }

    /// How many of these came up.
    pub fn ok_count(&self) -> (r: u32)
        ensures
            r == self.count_of_ok(),
            r <= 5,
    {
        bit(self.mmu_ok) + bit(self.heap_ok) + bit(self.gic_ok) + bit(self.timer_ok) + bit(
            self.csprng_ok,
        )
    }
}

impl BoardStatus {
    /// How many of these came up.
    pub open spec fn count_of_ok(self) -> int {
        one(self.emmc_ok) + one(self.display_ok) + one(self.input_ok)
    }

    /// How many of these came up.
    pub fn ok_count(&self) -> (r: u32)
        ensures
            r == self.count_of_ok(),
            r <= 3,
    {
        bit(self.emmc_ok) + bit(self.display_ok) + bit(self.input_ok)
    }
}

impl TrustStatus {
    /// How many of these came up.
    pub open spec fn count_of_ok(self) -> int {
        one(self.secure_boot_ok) + one(self.passphrase_ok) + one(self.encryption_ok) + one(
            self.security_mode_ok,
        )
    }

    /// How many of these came up.
    pub fn ok_count(&self) -> (r: u32)
        ensures
            r == self.count_of_ok(),
            r <= 4,
    {
        bit(self.secure_boot_ok) + bit(self.passphrase_ok) + bit(self.encryption_ok) + bit(
            self.security_mode_ok,
        )
    }
}

impl RadioStatus {
    /// How many of these came up.
    pub open spec fn count_of_ok(self) -> int {
        one(self.usb_ok) + one(self.modem_ok) + one(self.network_ok) + one(self.bluetooth_ok) + one(
            self.gps_ok,
        )
    }

    /// How many of these came up.
    pub fn ok_count(&self) -> (r: u32)
        ensures
            r == self.count_of_ok(),
            r <= 5,
    {
        bit(self.usb_ok) + bit(self.modem_ok) + bit(self.network_ok) + bit(self.bluetooth_ok) + bit(
            self.gps_ok,
        )
    }
}

/// 1 for what holds, 0 for what does not.
pub open spec fn one(b: bool) -> int {
    if b {
        1
    } else {
        0
    }
}

/// 1 for what holds, 0 for what does not.
fn bit(b: bool) -> (r: u32)
    ensures
        r == one(b),
        r <= 1,
{
    if b {
        1
    } else {
        0
    }
}

/// The part of the boot that an action belongs to.
#[derive(Clone, Copy, PartialEq, Eq, Structural, Debug)]
pub enum Stage {
    /// Bringing up the board.
    Board,
    /// Deciding on trust and opening the storage.
    Trust,
    /// Bringing up services and programs.
    Services,
    /// The boot is over.
    Over,
}

/// The part of the boot that an action belongs to.
pub open spec fn stage(action: BootAction) -> Stage {
    match action {
        BootAction::VerifyBootImage => Stage::Trust,
        BootAction::ProbePreamble => Stage::Trust,
        BootAction::VerifyPassphrase => Stage::Trust,
        BootAction::SetUpPassphrase => Stage::Trust,
        BootAction::MountStorage(_) => Stage::Trust,
        BootAction::FormatStorage(_) => Stage::Trust,
        BootAction::RemountStorage(_) => Stage::Trust,
        BootAction::InitVfs { .. } => Stage::Services,
        BootAction::ApplyRadioPolicy => Stage::Services,
        BootAction::InitUsb => Stage::Services,
        BootAction::BootModem => Stage::Services,
        BootAction::ProbeWifi => Stage::Services,
        BootAction::SmokeNetwork => Stage::Services,
        BootAction::InitBluetooth => Stage::Services,
        BootAction::InitGps => Stage::Services,
        BootAction::VerifyUserspaceImage => Stage::Services,
        BootAction::SpawnInit => Stage::Services,
        BootAction::SpawnShell => Stage::Services,
        BootAction::EnableScheduling => Stage::Services,
        BootAction::EnterServiceLoop { .. } => Stage::Over,
        BootAction::Halt { .. } => Stage::Over,
        _ => Stage::Board,
    }
}

/// The part of the boot that an action belongs to.
pub fn stage_of(action: BootAction) -> (r: Stage)
    ensures
        r == stage(action),
{
    match action {
        BootAction::VerifyBootImage => Stage::Trust,
        BootAction::ProbePreamble => Stage::Trust,
        BootAction::VerifyPassphrase => Stage::Trust,
        BootAction::SetUpPassphrase => Stage::Trust,
        BootAction::MountStorage(_) => Stage::Trust,
        BootAction::FormatStorage(_) => Stage::Trust,
        BootAction::RemountStorage(_) => Stage::Trust,
        BootAction::InitVfs { .. } => Stage::Services,
        BootAction::ApplyRadioPolicy => Stage::Services,
        BootAction::InitUsb => Stage::Services,
        BootAction::BootModem => Stage::Services,
        BootAction::ProbeWifi => Stage::Services,
        BootAction::SmokeNetwork => Stage::Services,
        BootAction::InitBluetooth => Stage::Services,
        BootAction::InitGps => Stage::Services,
        BootAction::VerifyUserspaceImage => Stage::Services,
        BootAction::SpawnInit => Stage::Services,
        BootAction::SpawnShell => Stage::Services,
        BootAction::EnableScheduling => Stage::Services,
        BootAction::EnterServiceLoop { .. } => Stage::Over,
        BootAction::Halt { .. } => Stage::Over,
        _ => Stage::Board,
    }
}

/// What bringing up the board leaves alone.
pub proof fn lemma_board_stage(s: BootState, event: BootEvent)
    requires
        stage(s.pending) == Stage::Board,
    ensures
        ({
            let r = s.advanced(event);
            &&& r.production_anchor == s.production_anchor
            &&& r.trust == s.trust
            &&& r.radio == s.radio
            &&& r.user == s.user
            &&& rank(r.pending) == rank(s.pending) - 1
            &&& stage(r.pending) == Stage::Board || r.pending == BootAction::VerifyBootImage
        }),
{
    reveal(BootState::board_advanced);
}

/// Going on to the mount changes nothing but what is pending.
pub proof fn lemma_at_mount(s: BootState)
    ensures
        s.at_mount() == s.then_do(s.at_mount().pending),
        s.at_mount().pending is MountStorage || s.at_mount().pending == (BootAction::InitVfs {
            persistent: false,
        }),
        rank(s.at_mount().pending) <= 16,
{
    reveal(BootState::at_mount);
}

/// Going on to the passphrase gate changes nothing but what is pending.
pub proof fn lemma_at_passphrase(s: BootState)
    ensures
        s.at_passphrase() == s.then_do(s.at_passphrase().pending),
        s.at_passphrase().pending is MountStorage || s.at_passphrase().pending == (
        BootAction::InitVfs { persistent: false }) || s.at_passphrase().pending
            == BootAction::VerifyPassphrase || s.at_passphrase().pending
            == BootAction::SetUpPassphrase,
        rank(s.at_passphrase().pending) <= 17,
{
    reveal(BootState::at_passphrase);
    lemma_at_mount(s);
}

/// What is trusted and unlocked after an action that decides on trust, or opens the
/// storage.
pub open spec fn trust_after(s: BootState, event: BootEvent) -> TrustStatus {
    let ok = event == BootEvent::Succeeded;
    match s.pending {
        BootAction::VerifyBootImage => if event == BootEvent::Image(ImageVerdict::Verified) {
            TrustStatus { secure_boot_ok: s.production_anchor, ..s.trust }
        } else {
            s.trust
        },
        BootAction::ProbePreamble => TrustStatus {
            preamble: match event {
                BootEvent::Preamble(status) => preamble_meaning(status),
                _ => PreambleLoad::ReadFailed,
            },
            ..s.trust
        },
        BootAction::VerifyPassphrase => if ok {
            TrustStatus { passphrase_ok: true, ..s.trust }
        } else {
            s.trust
        },
        BootAction::SetUpPassphrase => if ok {
            TrustStatus {
                passphrase_ok: true,
                preamble: PreambleLoad::Provisioned,
                provisioned_this_boot: true,
                ..s.trust
            }
        } else {
            s.trust
        },
        BootAction::MountStorage(kind) => if ok {
            TrustStatus { encryption_ok: kind == StorageKind::Encrypted, ..s.trust }
        } else {
            s.trust
        },
        BootAction::RemountStorage(kind) => if ok {
            TrustStatus { encryption_ok: kind == StorageKind::Encrypted, ..s.trust }
        } else {
            s.trust
        },
        _ => s.trust,
    }
}

/// What deciding on trust changes, and what it leaves alone.
pub proof fn lemma_trust_stage(s: BootState, event: BootEvent)
    requires
        stage(s.pending) == Stage::Trust,
    ensures
        ({
            let r = s.advanced(event);
            &&& r.production_anchor == s.production_anchor
            &&& r.core == s.core
            &&& r.board == s.board
            &&& r.radio == s.radio
            &&& r.user == s.user
            &&& r.trust == trust_after(s, event)
            &&& r.pending is Halt <==> ((s.pending == BootAction::VerifyBootImage && event
                != BootEvent::Image(ImageVerdict::Verified) && event != BootEvent::Image(
                ImageVerdict::Absent,
            )) || (s.pending == BootAction::VerifyPassphrase && event == BootEvent::WipeTriggered))
            &&& rank(r.pending) < rank(s.pending)
            &&& stage(r.pending) == Stage::Trust || r.pending is InitVfs || r.pending is Halt
        }),
{
    reveal(BootState::trust_advanced);
    match s.pending {
        BootAction::VerifyBootImage => {
            let t = BootState {
                trust: TrustStatus { secure_boot_ok: s.production_anchor, ..s.trust },
                ..s
            };
            lemma_at_passphrase(t);
            lemma_at_passphrase(s);
        },
        BootAction::ProbePreamble => {
            let preamble = match event {
                BootEvent::Preamble(status) => preamble_meaning(status),
                _ => PreambleLoad::ReadFailed,
            };
            lemma_at_passphrase(
                BootState { trust: TrustStatus { preamble, ..s.trust }, ..s },
            );
        },
        BootAction::VerifyPassphrase => {
            lemma_at_mount(s);
            lemma_at_mount(
                BootState { trust: TrustStatus { passphrase_ok: true, ..s.trust }, ..s },
            );
        },
        BootAction::SetUpPassphrase => {
            lemma_at_mount(s);
            lemma_at_mount(
                BootState {
                    trust: TrustStatus {
                        passphrase_ok: true,
                        preamble: PreambleLoad::Provisioned,
                        provisioned_this_boot: true,
                        ..s.trust
                    },
                    ..s
                },
            );
        },
        _ => {},
    }
}

/// What bringing up services leaves alone.
pub proof fn lemma_services_stage(s: BootState, event: BootEvent)
    requires
        stage(s.pending) == Stage::Services,
    ensures
        ({
            let r = s.advanced(event);
            &&& r.production_anchor == s.production_anchor
            &&& r.core == s.core
            &&& r.board == s.board
            &&& r.trust == (TrustStatus { security_mode_ok: r.trust.security_mode_ok, ..s.trust })
            &&& r.trust.security_mode_ok == (s.trust.security_mode_ok || s.pending
                == BootAction::ApplyRadioPolicy)
            &&& r.user.scheduling_enabled == (s.user.scheduling_enabled || s.pending
                == BootAction::EnableScheduling)
            &&& rank(r.pending) < rank(s.pending)
            &&& stage(r.pending) == Stage::Services && !(r.pending is InitVfs) || r.pending
                is EnterServiceLoop
        }),
{
    reveal(BootState::services_advanced);
}

/// The counters of programs stay small.
proof fn lemma_counts(s: BootState, event: BootEvent)
    requires
        s.counts_ok(),
    ensures
        s.advanced(event).counts_ok(),
{
    match stage(s.pending) {
        Stage::Board => {
            lemma_board_stage(s, event);
        },
        Stage::Trust => {
            lemma_trust_stage(s, event);
        },
        Stage::Services => {
            reveal(BootState::services_advanced);
        },
        Stage::Over => {},
    }
}

/// How many actions may still follow.
pub open spec fn rank(action: BootAction) -> int {
    match action {
        BootAction::EnableMmu => 31,
        BootAction::InitPageAllocator => 30,
        BootAction::InitHeap => 29,
        BootAction::InitGic => 28,
        BootAction::InitProcesses => 27,
        BootAction::InitExceptions => 26,
        BootAction::SeedCsprng => 25,
        BootAction::ArmWatchdog => 24,
        BootAction::RegisterDevices => 23,
        BootAction::InitEmmc => 22,
        BootAction::InitDisplay => 21,
        BootAction::EnableKeypad => 20,
        BootAction::VerifyBootImage => 19,
        BootAction::ProbePreamble => 18,
        BootAction::VerifyPassphrase => 17,
        BootAction::SetUpPassphrase => 17,
        BootAction::MountStorage(_) => 16,
        BootAction::FormatStorage(_) => 15,
        BootAction::RemountStorage(_) => 14,
        BootAction::InitVfs { .. } => 13,
        BootAction::ApplyRadioPolicy => 12,
        BootAction::InitUsb => 11,
        BootAction::BootModem => 10,
        BootAction::ProbeWifi => 9,
        BootAction::SmokeNetwork => 8,
        BootAction::InitBluetooth => 7,
        BootAction::InitGps => 6,
        BootAction::VerifyUserspaceImage => 5,
        BootAction::SpawnInit => 4,
        BootAction::SpawnShell => 3,
        BootAction::EnableScheduling => 2,
        BootAction::EnterServiceLoop { .. } => 0,
        BootAction::Halt { .. } => 0,
    }
}

/// Whether an action comes before any program is started.
pub open spec fn before_spawn(action: BootAction) -> bool {
    !(action == BootAction::SpawnInit || action == BootAction::SpawnShell || action
        == BootAction::EnableScheduling || action is EnterServiceLoop || action is Halt)
}

/// Take one step of the boot: hand in what came of the pending action, get what is
/// to be done next.
pub fn run(state: &mut BootState, event: BootEvent) -> (r: BootAction)
    requires
        old(state).counts_ok(),
    ensures
        *final(state) == old(state).advanced(event),
        final(state).counts_ok(),
        r == final(state).pending,
{
    state.advance(event);
    state.pending
}

/// The devices that become active where an action succeeds.
pub open spec fn devices_of(action: BootAction) -> Seq<Seq<char>> {
    match action {
        BootAction::InitEmmc => seq!["msdc0"@],
        BootAction::InitDisplay => seq!["gc9306-lcm"@, "disp-ovl0"@, "disp-rdma0"@],
        BootAction::EnableKeypad => seq!["mtk-kpd"@],
        BootAction::InitUsb => seq!["musb-hdrc"@],
        BootAction::BootModem => seq!["ccci-cldma"@, "ccci-ccif"@],
        BootAction::InitBluetooth => seq!["bt0"@],
        BootAction::InitGps => seq!["gps0"@],
        _ => Seq::empty(),
    }
}

/// The devices that become active where an action succeeds.
pub fn activated_devices(action: BootAction) -> (r: Vec<&'static str>)
    ensures
        r@.map_values(|s: &'static str| s@) == devices_of(action),
{
    let r: Vec<&'static str> = match action {
        BootAction::InitEmmc => vec!["msdc0"],
        BootAction::InitDisplay => vec!["gc9306-lcm", "disp-ovl0", "disp-rdma0"],
        BootAction::EnableKeypad => vec!["mtk-kpd"],
        BootAction::InitUsb => vec!["musb-hdrc"],
        BootAction::BootModem => vec!["ccci-cldma", "ccci-ccif"],
        BootAction::InitBluetooth => vec!["bt0"],
        BootAction::InitGps => vec!["gps0"],
        _ => Vec::new(),
    };
    assert(r@.map_values(|s: &'static str| s@) =~= devices_of(action));
    r
}

/// Whether booting the modem took longer than it may.
pub fn modem_overran(elapsed_ms: u64) -> (r: bool)
    ensures
        r == (elapsed_ms > MODEM_BOOT_TIMEOUT_MS),
{
    elapsed_ms > MODEM_BOOT_TIMEOUT_MS
}

/// The key of the audit chain of this boot: random bytes where the generator came up and
/// gave some, else all zero, with which the chain takes no entry.
pub fn session_audit_key(csprng_ok: bool, random: Option<[u8; KEY_SIZE]>) -> (r: [u8; KEY_SIZE])
    ensures
        csprng_ok && random is Some ==> r@ == random->0@,
        !(csprng_ok && random is Some) ==> forall|i: int|
            0 <= i < KEY_SIZE ==> #[trigger] r@[i] == 0,
{
    match random {
        Some(key) => if csprng_ok {
            key
        } else {
            [0u8; KEY_SIZE]
        },
        None => [0u8; KEY_SIZE],
    }
}

/// Whether the timer runs: it has a frequency, and its milliseconds advanced.
pub fn timer_advances(frequency: u32, before_ms: u64, after_ms: u64) -> (r: bool)
    ensures
        r == (frequency != 0 && after_ms > before_ms),
{
    frequency != 0 && after_ms > before_ms
}

/// What the banner says behind the name of the trust anchor.
pub fn trust_suffix(production_anchor: bool) -> (r: &'static str)
    ensures
        r@ == (if production_anchor {
            ""@
        } else {
            " (NOT PRODUCTION-TRUSTED)"@
        }),
{
    if production_anchor {
        ""
    } else {
        " (NOT PRODUCTION-TRUSTED)"
    }
}

/// How far the dev-only debug console is let through.
#[derive(Clone, Copy, PartialEq, Eq, Structural, Debug)]
pub enum ConsoleGate {
    /// The console is not enabled.
    Off,
    /// The security mode does not allow it.
    RefusedByMode,
    /// It starts once the presence sequence was typed.
    AwaitPresence,
}

/// Decide whether the debug console is armed: only where it was enabled in the
/// source, and only in Daily mode.
pub fn debug_console_gate(enabled: bool, mode: SecurityMode) -> (r: ConsoleGate)
    ensures
        r == (if !enabled {
            ConsoleGate::Off
        } else if mode != SecurityMode::Daily {
            ConsoleGate::RefusedByMode
        } else {
            ConsoleGate::AwaitPresence
        }),
{
    if !enabled {
        return ConsoleGate::Off;
    }
    match mode {
        SecurityMode::Daily => ConsoleGate::AwaitPresence,
        _ => ConsoleGate::RefusedByMode,
    }
}

/// Whether the debug console starts, given whether the presence sequence was typed.
pub fn start_console(gate: ConsoleGate, presence: bool) -> (r: bool)
    ensures
        r == (gate == ConsoleGate::AwaitPresence && presence),
{
    gate == ConsoleGate::AwaitPresence && presence
}

/// Fill a framebuffer of some width and height with a solid colour.
pub fn fill_framebuffer(fb: &mut [u16], width: u32, height: u32, color: u16)
    requires
        width * height <= u32::MAX,
        width * height <= old(fb)@.len(),
    ensures
        final(fb)@.len() == old(fb)@.len(),
        forall|i: int|
            0 <= i < final(fb)@.len() ==> #[trigger] final(fb)@[i] == (if i < width * height {
                color
            } else {
                old(fb)@[i]
            }),
{
    let total: usize = (width * height) as usize;
    let mut i: usize = 0;
    while i < total
        invariant
            i <= total,
            total == width * height,
            total <= fb@.len(),
            fb@.len() == old(fb)@.len(),
            forall|j: int|
                0 <= j < fb@.len() ==> #[trigger] fb@[j] == (if j < i {
                    color
                } else {
                    old(fb)@[j]
                }),
        decreases total - i,
    {
        fb[i] = color;
        i += 1;
    }
}

// ---------------------------------------------------------------------------
// Passphrase entry
// ---------------------------------------------------------------------------

/// The ASCII digit of a key: the alphabet of boot passphrases.
pub open spec fn digit_of(key: Key) -> Option<u8> {
    match key {
        Key::Num0 => Some(0x30u8),
        Key::Num1 => Some(0x31u8),
        Key::Num2 => Some(0x32u8),
        Key::Num3 => Some(0x33u8),
        Key::Num4 => Some(0x34u8),
        Key::Num5 => Some(0x35u8),
        Key::Num6 => Some(0x36u8),
        Key::Num7 => Some(0x37u8),
        Key::Num8 => Some(0x38u8),
        Key::Num9 => Some(0x39u8),
        _ => None,
    }
}

/// Map a keypad matrix key to its ASCII digit. Star and Hash are control keys at
/// boot, never passphrase bytes.
pub fn boot_digit(key: Key) -> (r: Option<u8>)
    ensures
        r == digit_of(key),
{
    match key {
        Key::Num0 => Some(0x30),
        Key::Num1 => Some(0x31),
        Key::Num2 => Some(0x32),
        Key::Num3 => Some(0x33),
        Key::Num4 => Some(0x34),
        Key::Num5 => Some(0x35),
        Key::Num6 => Some(0x36),
        Key::Num7 => Some(0x37),
        Key::Num8 => Some(0x38),
        Key::Num9 => Some(0x39),
        _ => None,
    }
}

/// What a key does at the passphrase gate.
#[derive(Clone, Copy, PartialEq, Eq, Structural, Debug)]
pub enum EntryAction {
    /// Append a digit.
    Append(u8),
    /// Remove the last digit.
    Backspace,
    /// Submit what was entered.
    Submit,
    /// Nothing: there is no navigation target here.
    Ignore,
}

/// What a key does at the passphrase gate: digits append, Star removes, Hash
/// submits, and every other key does nothing.
pub open spec fn action_of(key: Key) -> EntryAction {
    match digit_of(key) {
        Some(d) => EntryAction::Append(d),
        None => match key {
            Key::Star => EntryAction::Backspace,
            Key::Hash => EntryAction::Submit,
            _ => EntryAction::Ignore,
        },
    }
}

/// What a key does at the passphrase gate.
pub fn entry_action(key: Key) -> (r: EntryAction)
    ensures
        r == action_of(key),
{
    match boot_digit(key) {
        Some(d) => EntryAction::Append(d),
        None => match key {
            Key::Star => EntryAction::Backspace,
            Key::Hash => EntryAction::Submit,
            _ => EntryAction::Ignore,
        },
    }
}

/// The most bytes of a passphrase.
pub const MAX_PASSPHRASE_LEN: usize = 64;

/// The digits that were entered so far.
pub struct PassphraseEntry {
    bytes: Vec<u8>,
}

impl View for PassphraseEntry {
    type V = Seq<u8>;

    closed spec fn view(&self) -> Seq<u8> {
        self.bytes@
    }
}

/// The entry after a key. A full entry takes no further digit.
pub open spec fn keyed(entry: Seq<u8>, key: Key) -> Seq<u8> {
    match action_of(key) {
        EntryAction::Append(d) => if entry.len() < MAX_PASSPHRASE_LEN {
            entry.push(d)
        } else {
            entry
        },
        EntryAction::Backspace => if entry.len() > 0 {
            entry.drop_last()
        } else {
            entry
        },
        _ => entry,
    }
}

/// Whether an entry can be the boot passphrase: decimal digits, and not too many.
pub open spec fn is_entry(entry: Seq<u8>) -> bool {
    &&& entry.len() <= MAX_PASSPHRASE_LEN
    &&& forall|i: int| 0 <= i < entry.len() ==> 0x30 <= #[trigger] entry[i] <= 0x39
}

impl PassphraseEntry {
    /// Only digits are entered.
    pub open spec fn wf(&self) -> bool {
        is_entry(self@)
    }

    /// Nothing was entered.
    pub fn new() -> (r: Self)
        ensures
            r.wf(),
            r@ == Seq::<u8>::empty(),
    {
        PassphraseEntry { bytes: Vec::new() }
    }

    /// Handle a key of the boot pad. Tells what the key does; submitting is up to the
    /// caller.
    pub fn apply_key(&mut self, key: Key) -> (r: EntryAction)
        requires
            old(self).wf(),
        ensures
            final(self).wf(),
            final(self)@ == keyed(old(self)@, key),
            r == action_of(key),
    {
        let action = entry_action(key);
        match action {
            EntryAction::Append(d) => {
                if self.bytes.len() < MAX_PASSPHRASE_LEN {
                    self.bytes.push(d);
                }
            },
            EntryAction::Backspace => {
                if self.bytes.len() > 0 {
                    self.bytes.pop();
                }
            },
            _ => {},
        }
        action
    }

    /// The digits that were entered.
    pub fn passphrase_bytes(&self) -> (r: &[u8])
        ensures
            r@ == self@,
    {
        self.bytes.as_slice()
    }

    /// Erase the entry.
    pub fn clear_passphrase(&mut self)
        ensures
            final(self).wf(),
            final(self)@ == Seq::<u8>::empty(),
    {
        volatile_zero_slice(self.bytes.as_mut_slice());
        self.bytes.clear();
    }
}

/// Compare two digests without stopping at the first difference.
pub fn constant_time_eq(a: &[u8; KEY_SIZE], b: &[u8; KEY_SIZE]) -> (r: bool)
    ensures
        r == (a@ == b@),
{
    let mut diff: u8 = 0;
    let mut i: usize = 0;
    while i < KEY_SIZE
        invariant
            i <= KEY_SIZE,
            (diff == 0) == (forall|j: int| 0 <= j < i ==> #[trigger] a@[j] == b@[j]),
        decreases KEY_SIZE - i,
    {
        let x: u8 = a[i];
        let y: u8 = b[i];
        let before: u8 = diff;
        diff = diff | (x ^ y);
        assert((before | (x ^ y)) == 0 <==> (before == 0 && x == y)) by (bit_vector);
        assert(x == a@[i as int] && y == b@[i as int]);
        i += 1;
    }
    assert(diff == 0 ==> a@ =~= b@);
    diff == 0
}

/// The verifier that is stored for a primary key.
pub open spec fn verifier_of(primary: Seq<u8>) -> Seq<u8> {
    hkdf(primary, Seq::empty(), label_verify(), KEY_SIZE as int)
}

/// The primary key of an entered passphrase, where it is the right one: its
/// verifier is the stored one.
pub open spec fn accepted(
    kdf: PinKdf,
    salt: Seq<u8>,
    verifier: Seq<u8>,
    entered: Seq<u8>,
) -> Option<Seq<u8>> {
    match derived_under(kdf, entered, salt) {
        Some(primary) => if verifier_of(primary) == verifier {
            Some(primary)
        } else {
            None
        },
        None => None,
    }
}

/// Check an entered passphrase against the stored verifier, at the full cost of the
/// recorded derivation. Gives the primary key where it is the right one.
pub fn check_passphrase(kdf: PinKdf, salt: &[u8], verifier: &[u8; KEY_SIZE], entered: &[u8]) -> (r:
    Option<SecureKey<KEY_SIZE>>)
    ensures
        match r {
            Some(primary) => accepted(kdf, salt@, verifier@, entered@) == Some(primary@),
            None => accepted(kdf, salt@, verifier@, entered@) is None,
        },
{
    let primary = match KeyManager::derive_from_passphrase(entered, salt, kdf) {
        Ok(primary) => primary,
        Err(_) => {
            return None;
        },
    };
    let candidate = match KeyManager::derive_boot_verifier(&primary) {
        Ok(candidate) => candidate,
        Err(_) => {
            return None;
        },
    };
    if constant_time_eq(&candidate, verifier) {
        Some(primary)
    } else {
        None
    }
}

/// What the lock screen says to a submitted passphrase.
#[derive(Clone, Copy, PartialEq, Eq, Structural, Debug)]
pub enum UnlockResult {
    Success,
    WrongPassphrase,
    WrongPin,
    Throttled,
    DuressDetected,
    /// The limit of attempts was reached.
    WipeTrigger,
}

/// How the verify loop goes on after a submission.
#[derive(Clone, Copy, PartialEq, Eq, Structural, Debug)]
pub enum VerifyOutcome {
    /// The keys are loaded.
    Unlocked,
    /// The passphrase was right but gave no keys: stay locked.
    KeyFault,
    /// There is no verifier to compare with: stay locked.
    NoVerifier,
    /// Wipe, and halt for good.
    WipeAndHalt,
    /// Keep polling; the lock screen shows attempts and throttling.
    KeepPolling,
}

/// How the verify loop goes on, given what the lock screen says and whether a right
/// passphrase gave a primary key.
pub open spec fn outcome_of(result: UnlockResult, has_primary: bool) -> VerifyOutcome {
    match result {
        UnlockResult::Success => if has_primary {
            VerifyOutcome::Unlocked
        } else {
            VerifyOutcome::KeyFault
        },
        UnlockResult::WipeTrigger => VerifyOutcome::WipeAndHalt,
        _ => VerifyOutcome::KeepPolling,
    }
}

/// How the verify loop goes on, given what the lock screen says and the primary key
/// of the passphrase where it was right. Loads the keys on success.
pub fn after_submit(
    result: UnlockResult,
    primary: Option<SecureKey<KEY_SIZE>>,
    key_manager: &mut KeyManager,
) -> (r: VerifyOutcome)
    ensures
        r == outcome_of(result, primary is Some),
        r == VerifyOutcome::Unlocked ==> final(key_manager)@ == KeyModel::unlocked(primary->0@),
        r != VerifyOutcome::Unlocked ==> final(key_manager)@ == old(key_manager)@,
{
    match result {
        UnlockResult::Success => {
            if let Some(key) = primary {
                if key_manager.derive_partition_keys(&key).is_ok() {
                    return VerifyOutcome::Unlocked;
                }
            }
            VerifyOutcome::KeyFault
        },
        UnlockResult::WipeTrigger => VerifyOutcome::WipeAndHalt,
        _ => VerifyOutcome::KeepPolling,
    }
}

/// What the lock screen says to a submission, and whether it erases the entry.
#[derive(Clone, Copy, PartialEq, Eq, Structural, Debug)]
pub struct LockAnswer {
    pub result: UnlockResult,
    pub erases: bool,
}

/// How the lock screen would answer the next submission. It counts the attempts and
/// throttles them; the passphrase gate asks it and does as it says.
#[derive(Clone, Copy, PartialEq, Eq, Structural, Debug)]
pub struct LockAnswers {
    /// The answer without a look at the passphrase: `None` where it has it checked.
    pub unchecked: Option<LockAnswer>,
    /// The answer to the right passphrase.
    pub right: LockAnswer,
    /// The answer to any other.
    pub wrong: LockAnswer,
}

impl LockAnswers {
    /// The answer to a submission, given whether it holds the right passphrase.
    pub open spec fn answer(self, right: bool) -> LockAnswer {
        match self.unchecked {
            Some(answer) => answer,
            None => if right {
                self.right
            } else {
                self.wrong
            },
        }
    }
}

/// What a key does at the passphrase gate of a provisioned device: the entry behind it,
/// and how it goes on. Without a verifier it ends at once. A submission goes on as the lock
/// screen answers; it unlocks only with a checked passphrase.
pub open spec fn verify_keyed(
    entry: Seq<u8>,
    key: Key,
    kdf: PinKdf,
    salt: Seq<u8>,
    stored: Option<Seq<u8>>,
    lock: LockAnswers,
) -> (Seq<u8>, Option<VerifyOutcome>) {
    match stored {
        None => (entry, Some(VerifyOutcome::NoVerifier)),
        Some(verifier) => if action_of(key) != EntryAction::Submit {
            (keyed(entry, key), None)
        } else {
            let right = accepted(kdf, salt, verifier, entry) is Some;
            let answer = lock.answer(right);
            let kept = if answer.erases {
                Seq::empty()
            } else {
                entry
            };
            (kept, Some(outcome_of(answer.result, right && lock.unchecked is None)))
        },
    }
}

/// Handle one key at the passphrase gate of a provisioned device, with the lock screen's
/// answers to a submission. On success the keys of the passphrase are loaded; otherwise the
/// key manager is left alone.
pub fn boot_verify_step(
    entry: &mut PassphraseEntry,
    key: Key,
    stored: Option<[u8; KEY_SIZE]>,
    salt: &[u8],
    kdf: PinKdf,
    lock: LockAnswers,
    key_manager: &mut KeyManager,
) -> (r: Option<VerifyOutcome>)
    requires
        old(entry).wf(),
    ensures
        final(entry).wf(),
        (final(entry)@, r) == verify_keyed(
            old(entry)@,
            key,
            kdf,
            salt@,
            match stored {
                Some(v) => Some(v@),
                None => None,
            },
            lock,
        ),
        r == Some(VerifyOutcome::Unlocked) ==> final(key_manager)@ == KeyModel::unlocked(
            accepted(kdf, salt@, stored->0@, old(entry)@)->0,
        ),
        r != Some(VerifyOutcome::Unlocked) ==> final(key_manager)@ == old(key_manager)@,
{
    let verifier = match stored {
        Some(v) => v,
        None => {
            return Some(VerifyOutcome::NoVerifier);
        },
    };
    match entry.apply_key(key) {
        EntryAction::Submit => {},
        _ => {
            return None;
        },
    }
    let (answer, primary) = match lock.unchecked {
        Some(answer) => (answer, None),
        None => {
            let primary = check_passphrase(kdf, salt, &verifier, entry.passphrase_bytes());
            if primary.is_some() {
                (lock.right, primary)
            } else {
                (lock.wrong, None)
            }
        },
    };
    if answer.erases {
        entry.clear_passphrase();
    }
    Some(after_submit(answer.result, primary, key_manager))
}

// ---------------------------------------------------------------------------
// First-boot setup
// ---------------------------------------------------------------------------

/// What a submission during setup leads to.
#[derive(Clone, Copy, PartialEq, Eq, Structural, Debug)]
pub enum SetupStep {
    /// Too short: enter more.
    TooShort,
    /// Taken: enter it again.
    AskConfirm,
    /// The second entry differs: start over.
    StartOver,
    /// Both entries are the same: provision the device with it.
    Provision,
}

/// First-boot setup: a passphrase is entered, then confirmed. There is no way to
/// skip it.
pub struct BootSetup {
    /// The first entry, while the second is awaited.
    first: Option<Vec<u8>>,
}

impl View for BootSetup {
    type V = Option<Seq<u8>>;

    /// The first entry, while the second is awaited.
    closed spec fn view(&self) -> Option<Seq<u8>> {
        match self.first {
            Some(v) => Some(v@),
            None => None,
        }
    }
}

/// What a submission does: what is remembered behind it, and the step.
pub open spec fn submitted(first: Option<Seq<u8>>, entered: Seq<u8>) -> (
    Option<Seq<u8>>,
    SetupStep,
) {
    match first {
        Some(f) => if f == entered {
            (None, SetupStep::Provision)
        } else {
            (None, SetupStep::StartOver)
        },
        None => if entered.len() >= MIN_BOOT_PASSPHRASE_LEN {
            (Some(entered), SetupStep::AskConfirm)
        } else {
            (None, SetupStep::TooShort)
        },
    }
}

impl BootSetup {
    /// Nothing was entered.
    pub fn new() -> (r: Self)
        ensures
            r@ is None,
    {
        BootSetup { first: None }
    }

    /// Whether the second entry is awaited.
    pub fn confirming(&self) -> (r: bool)
        ensures
            r == (self@ is Some),
    {
        self.first.is_some()
    }

    /// Submit an entry. The first entry is erased once the second was compared.
    pub fn submit(&mut self, entered: &[u8]) -> (step: SetupStep)
        ensures
            (final(self)@, step) == submitted(old(self)@, entered@),
    {
        match self.first.take() {
            Some(mut first) => {
                let same: bool = same_bytes(first.as_slice(), entered);
                volatile_zero_slice(first.as_mut_slice());
                if same {
                    SetupStep::Provision
                } else {
                    SetupStep::StartOver
                }
            },
            None => {
                if entered.len() >= MIN_BOOT_PASSPHRASE_LEN {
                    self.first = Some(copy_bytes(entered));
                    SetupStep::AskConfirm
                } else {
                    SetupStep::TooShort
                }
            },
        }
    }
}

/// What a key does during setup: the entry and the remembered first entry behind it,
/// and the step where the key submitted. An accepted or a mismatched entry is erased;
/// one that is too short stays, to be continued; one to provision with stays until
/// the caller has derived the keys from it.
pub open spec fn setup_keyed(entry: Seq<u8>, first: Option<Seq<u8>>, key: Key) -> (
    Seq<u8>,
    Option<Seq<u8>>,
    Option<SetupStep>,
) {
    if action_of(key) == EntryAction::Submit {
        let (next, step) = submitted(first, entry);
        let kept = if step == SetupStep::AskConfirm || step == SetupStep::StartOver {
            Seq::empty()
        } else {
            entry
        };
        (kept, next, Some(step))
    } else {
        (keyed(entry, key), first, None)
    }
}

/// Handle one key during first-boot setup.
pub fn boot_setup_step(entry: &mut PassphraseEntry, setup: &mut BootSetup, key: Key) -> (r: Option<
    SetupStep,
>)
    requires
        old(entry).wf(),
    ensures
        final(entry).wf(),
        (final(entry)@, final(setup)@, r) == setup_keyed(old(entry)@, old(setup)@, key),
{
    match entry.apply_key(key) {
        EntryAction::Submit => {
            let step = setup.submit(entry.passphrase_bytes());
            match step {
                SetupStep::AskConfirm => {
                    entry.clear_passphrase();
                },
                SetupStep::StartOver => {
                    entry.clear_passphrase();
                },
                _ => {},
            }
            Some(step)
        },
        _ => None,
    }
}

/// What a new passphrase provisions the device with.
pub struct Provisioning {
    /// The primary key, kept until the verifier is stored.
    pub primary: SecureKey<KEY_SIZE>,
    /// The salt to store.
    pub salt: Vec<u8>,
    /// The verifier to store.
    pub verifier: [u8; KEY_SIZE],
}

/// What a [`Provisioning`] stands for.
#[verifier::ext_equal]
pub struct ProvisioningModel {
    pub primary: Seq<u8>,
    pub salt: Seq<u8>,
    pub verifier: Seq<u8>,
}

impl View for Provisioning {
    type V = ProvisioningModel;

    open spec fn view(&self) -> ProvisioningModel {
        ProvisioningModel {
            primary: self.primary@,
            salt: self.salt@,
            verifier: self.verifier@,
        }
    }
}

/// Why a device could not be provisioned.
#[derive(Clone, Copy, PartialEq, Eq, Structural, Debug)]
pub enum ProvisionFault {
    /// There are no random bytes for a salt.
    NoEntropy,
    /// No key could be derived from the passphrase.
    Derivation,
}

/// What a passphrase provisions a device with under a salt.
pub open spec fn provisioned(kdf: PinKdf, passphrase: Seq<u8>, salt: Seq<u8>) -> Option<
    ProvisioningModel,
> {
    match derived_under(kdf, passphrase, salt) {
        Some(primary) => Some(
            ProvisioningModel { primary, salt, verifier: verifier_of(primary) },
        ),
        None => None,
    }
}

/// Derive what a new passphrase provisions the device with, from a fresh salt.
pub fn prepare_provisioning(passphrase: &[u8], salt: &[u8], kdf: PinKdf) -> (r: Result<
    Provisioning,
    SecurityError,
>)
    ensures
        match r {
            Ok(p) => provisioned(kdf, passphrase@, salt@) == Some(p@),
            Err(e) => provisioned(kdf, passphrase@, salt@) is None && e
                == SecurityError::KeyDerivationFailed,
        },
{
    let primary = match KeyManager::derive_from_passphrase(passphrase, salt, kdf) {
        Ok(primary) => primary,
        Err(e) => {
            return Err(e);
        },
    };
    match KeyManager::derive_boot_verifier(&primary) {
        Ok(verifier) => Ok(Provisioning { primary, salt: copy_bytes(salt), verifier }),
        Err(e) => Err(e),
    }
}

/// End first-boot setup with the entry that was confirmed: derive what is to be stored
/// from it, under the random bytes as salt, and erase it. Without random bytes nothing
/// is derived and the entry stays.
pub fn provision_entry(
    entry: &mut PassphraseEntry,
    random: Option<[u8; KEY_SIZE]>,
    kdf: PinKdf,
) -> (r: Result<Provisioning, ProvisionFault>)
    ensures
        match random {
            None => r == Err::<Provisioning, ProvisionFault>(ProvisionFault::NoEntropy)
                && *final(entry) == *old(entry),
            Some(salt) => {
                &&& final(entry).wf()
                &&& final(entry)@ == Seq::<u8>::empty()
                &&& match provisioned(kdf, old(entry)@, salt@) {
                    Some(p) => r is Ok && r->Ok_0@ == p,
                    None => r is Err && r->Err_0 == ProvisionFault::Derivation,
                }
            },
        },
{
    let salt = match random {
        Some(salt) => salt,
        None => {
            return Err(ProvisionFault::NoEntropy);
        },
    };
    let made = prepare_provisioning(entry.passphrase_bytes(), salt.as_slice(), kdf);
    entry.clear_passphrase();
    match made {
        Ok(made) => Ok(made),
        Err(_) => Err(ProvisionFault::Derivation),
    }
}

/// Finish provisioning: the keys are loaded only where the verifier was stored.
/// Returns whether the device is provisioned.
pub fn finish_provisioning(
    provisioning: &Provisioning,
    stored: bool,
    key_manager: &mut KeyManager,
) -> (r: bool)
    ensures
        r == stored,
        final(key_manager)@ == (if stored {
            KeyModel::unlocked(provisioning.primary@)
        } else {
            old(key_manager)@
        }),
{
    stored && key_manager.derive_partition_keys(&provisioning.primary).is_ok()
}

} // verus!
