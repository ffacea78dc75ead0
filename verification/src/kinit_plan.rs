//! Boot planning: what is done next, decided from what is known.
use crate::board::{LFS_PARTITION_SIZE, LFS_PARTITION_START, LFS_PREAMBLE_SECTORS};
use vstd::prelude::*;

verus! {

/// The fewest digits of a boot passphrase.
pub const MIN_BOOT_PASSPHRASE_LEN: usize = 6;

/// How long the modem may take to boot.
pub const MODEM_BOOT_TIMEOUT_MS: u64 = 30_000;

/// The fill colour of a halted boot.
pub const PANIC_RED_RGB565: u16 = 0xF800;

/// What the secrets preamble of the userdata partition turned out to be.
#[derive(Clone, Copy, PartialEq, Eq, Structural, Debug)]
pub enum PreambleLoad {
    /// No preamble: the device has never held a passphrase.
    Unprovisioned,
    /// A valid preamble with a passphrase verifier: the payload is ciphertext.
    Provisioned,
    /// A preamble is there but does not validate: a provisioned device, never a
    /// blank one.
    Corrupt,
    /// The preamble was not or could not be read.
    ReadFailed,
}

/// What reading the preamble found on the medium.
#[derive(Clone, Copy, PartialEq, Eq, Structural, Debug)]
pub enum PreambleStatus {
    /// A valid preamble, with or without a passphrase verifier.
    Valid { has_verifier: bool },
    /// No preamble.
    Absent,
    /// A preamble that does not validate.
    Corrupt,
    /// The medium could not be read.
    Unreadable,
}

/// What a preamble means for the boot.
pub open spec fn preamble_meaning(status: PreambleStatus) -> PreambleLoad {
    match status {
        PreambleStatus::Valid { has_verifier } => if has_verifier {
            PreambleLoad::Provisioned
        } else {
            PreambleLoad::Unprovisioned
        },
        PreambleStatus::Absent => PreambleLoad::Unprovisioned,
        PreambleStatus::Corrupt => PreambleLoad::Corrupt,
        PreambleStatus::Unreadable => PreambleLoad::ReadFailed,
    }
}

/// What a preamble means for the boot.
pub fn classify_preamble(status: PreambleStatus) -> (r: PreambleLoad)
    ensures
        r == preamble_meaning(status),
{
    match status {
        PreambleStatus::Valid { has_verifier } => if has_verifier {
            PreambleLoad::Provisioned
        } else {
            PreambleLoad::Unprovisioned
        },
        PreambleStatus::Absent => PreambleLoad::Unprovisioned,
        PreambleStatus::Corrupt => PreambleLoad::Corrupt,
        PreambleStatus::Unreadable => PreambleLoad::ReadFailed,
    }
}

/// What happens at the boot passphrase gate.
#[derive(Clone, Copy, PartialEq, Eq, Structural, Debug)]
pub enum BootPassphrasePlan {
    /// No passphrase is asked for; nothing is unlocked.
    Skip,
    /// The passphrase is verified against the stored verifier.
    Verify,
    /// A passphrase is set.
    FirstBootSetup,
}

/// The plan for the passphrase gate: nothing is asked for without an established
/// trust root, a display and a keypad, or where the preamble is not known.
pub open spec fn passphrase_plan(
    secure_boot_ok: bool,
    display_ok: bool,
    input_ok: bool,
    preamble: PreambleLoad,
) -> BootPassphrasePlan {
    if !secure_boot_ok || !display_ok || !input_ok {
        BootPassphrasePlan::Skip
    } else {
        match preamble {
            PreambleLoad::Provisioned => BootPassphrasePlan::Verify,
            PreambleLoad::Unprovisioned => BootPassphrasePlan::FirstBootSetup,
            PreambleLoad::Corrupt => BootPassphrasePlan::Skip,
            PreambleLoad::ReadFailed => BootPassphrasePlan::Skip,
        }
    }
}

/// The plan for the passphrase gate.
pub fn boot_passphrase_plan(
    secure_boot_ok: bool,
    display_ok: bool,
    input_ok: bool,
    preamble: PreambleLoad,
) -> (r: BootPassphrasePlan)
    ensures
        r == passphrase_plan(secure_boot_ok, display_ok, input_ok, preamble),
{
    if !secure_boot_ok || !display_ok || !input_ok {
        return BootPassphrasePlan::Skip;
    }
    match preamble {
        PreambleLoad::Provisioned => BootPassphrasePlan::Verify,
        PreambleLoad::Unprovisioned => BootPassphrasePlan::FirstBootSetup,
        PreambleLoad::Corrupt => BootPassphrasePlan::Skip,
        PreambleLoad::ReadFailed => BootPassphrasePlan::Skip,
    }
}

/// Why no passphrase was asked for.
pub fn passphrase_skip_reason(secure_boot_ok: bool, display_ok: bool, input_ok: bool) -> (r:
    &'static str)
    ensures
        r@ == (if !secure_boot_ok {
            " Skipped (secure boot not established -- fail-closed)\r\n"@
        } else if !display_ok {
            " Skipped (no display)\r\n"@
        } else if !input_ok {
            " Skipped (no keypad)\r\n"@
        } else {
            " Skipped (secrets preamble unreadable or corrupt -- fail-closed)\r\n"@
        }),
{
    if !secure_boot_ok {
        " Skipped (secure boot not established -- fail-closed)\r\n"
    } else if !display_ok {
        " Skipped (no display)\r\n"
    } else if !input_ok {
        " Skipped (no keypad)\r\n"
    } else {
        " Skipped (secrets preamble unreadable or corrupt -- fail-closed)\r\n"
    }
}

/// How the userdata partition is mounted.
#[derive(Clone, Copy, PartialEq, Eq, Structural, Debug)]
pub enum MountPlan {
    /// The encrypted payload behind the preamble.
    Encrypted,
    /// The whole partition, unencrypted.
    Plain,
    /// Not at all: the root is volatile.
    RamfsFallback,
}

/// The plan for the mount: nothing persistent without a medium and an established
/// trust root; ciphertext only with its key; plaintext only on a device that has
/// never been provisioned.
pub open spec fn planned_mount(
    emmc_ok: bool,
    secure_boot_ok: bool,
    preamble: PreambleLoad,
    passphrase_ok: bool,
) -> MountPlan {
    if !emmc_ok || !secure_boot_ok {
        MountPlan::RamfsFallback
    } else {
        match preamble {
            PreambleLoad::Provisioned => if passphrase_ok {
                MountPlan::Encrypted
            } else {
                MountPlan::RamfsFallback
            },
            PreambleLoad::Unprovisioned => MountPlan::Plain,
            PreambleLoad::Corrupt => MountPlan::RamfsFallback,
            PreambleLoad::ReadFailed => MountPlan::RamfsFallback,
        }
    }
}

/// The plan for the mount.
pub fn mount_plan(
    emmc_ok: bool,
    secure_boot_ok: bool,
    preamble: PreambleLoad,
    passphrase_ok: bool,
) -> (r: MountPlan)
    ensures
        r == planned_mount(emmc_ok, secure_boot_ok, preamble, passphrase_ok),
{
    if !emmc_ok || !secure_boot_ok {
        return MountPlan::RamfsFallback;
    }
    match preamble {
        PreambleLoad::Provisioned => if passphrase_ok {
            MountPlan::Encrypted
        } else {
            MountPlan::RamfsFallback
        },
        PreambleLoad::Unprovisioned => MountPlan::Plain,
        PreambleLoad::Corrupt => MountPlan::RamfsFallback,
        PreambleLoad::ReadFailed => MountPlan::RamfsFallback,
    }
}

/// Why nothing persistent was mounted.
pub fn mount_skip_reason(emmc_ok: bool, secure_boot_ok: bool) -> (r: &'static str)
    ensures
        r@ == (if emmc_ok && secure_boot_ok {
            " Skipped (payload locked or unreadable -- fail-closed)\r\n"@
        } else if emmc_ok {
            " Skipped (secure boot not established -- fail-closed)\r\n"@
        } else {
            " Skipped (no eMMC)\r\n"@
        }),
{
    if emmc_ok && secure_boot_ok {
        " Skipped (payload locked or unreadable -- fail-closed)\r\n"
    } else if emmc_ok {
        " Skipped (secure boot not established -- fail-closed)\r\n"
    } else {
        " Skipped (no eMMC)\r\n"
    }
}

/// Whether an encrypted payload without a readable superblock may be formatted:
/// only where this boot provisioned the device, so that there is nothing to lose.
pub fn may_format_encrypted_lfs(preamble: PreambleLoad, provisioned_this_boot: bool) -> (r: bool)
    ensures
        r == (preamble == PreambleLoad::Provisioned && provisioned_this_boot),
{
    preamble == PreambleLoad::Provisioned && provisioned_this_boot
}

/// A range of sectors of the medium.
#[derive(Clone, Copy, PartialEq, Eq, Structural, Debug)]
pub struct SectorWindow {
    pub start: u64,
    pub count: u64,
}

/// The window of the secrets preamble: the head of the userdata partition.
pub fn preamble_window() -> (r: SectorWindow)
    ensures
        r.start == LFS_PARTITION_START,
        r.count == LFS_PREAMBLE_SECTORS,
{
    SectorWindow { start: LFS_PARTITION_START, count: LFS_PREAMBLE_SECTORS }
}

/// The window of the encrypted payload: the userdata partition behind the preamble.
pub fn encrypted_payload_window() -> (r: SectorWindow)
    ensures
        r.start == LFS_PARTITION_START + LFS_PREAMBLE_SECTORS,
        r.start + r.count == LFS_PARTITION_START + LFS_PARTITION_SIZE,
{
    SectorWindow {
        start: LFS_PARTITION_START + LFS_PREAMBLE_SECTORS,
        count: LFS_PARTITION_SIZE - LFS_PREAMBLE_SECTORS,
    }
}

/// The window of the plain file system: the whole userdata partition.
pub fn plain_window() -> (r: SectorWindow)
    ensures
        r.start == LFS_PARTITION_START,
        r.count == LFS_PARTITION_SIZE,
{
    SectorWindow { start: LFS_PARTITION_START, count: LFS_PARTITION_SIZE }
}

/// Law: without an established trust root nothing is asked for and nothing
/// persistent is mounted.
pub proof fn law_no_trust_no_data(
    emmc_ok: bool,
    display_ok: bool,
    input_ok: bool,
    preamble: PreambleLoad,
    passphrase_ok: bool,
)
    ensures
        passphrase_plan(false, display_ok, input_ok, preamble) == BootPassphrasePlan::Skip,
        planned_mount(emmc_ok, false, preamble, passphrase_ok) == MountPlan::RamfsFallback,
{
}

/// Law: a preamble that is corrupt or unreadable locks the device: no first-boot
/// setup can overwrite it, and the payload is not mounted.
pub proof fn law_damaged_preamble_locks(
    emmc_ok: bool,
    secure_boot_ok: bool,
    display_ok: bool,
    input_ok: bool,
    passphrase_ok: bool,
    status: PreambleStatus,
)
    requires
        status == PreambleStatus::Corrupt || status == PreambleStatus::Unreadable,
    ensures
        passphrase_plan(secure_boot_ok, display_ok, input_ok, preamble_meaning(status))
            == BootPassphrasePlan::Skip,
        planned_mount(emmc_ok, secure_boot_ok, preamble_meaning(status), passphrase_ok)
            == MountPlan::RamfsFallback,
{
}

} // verus!
