//! IRQ-mask primitives for IRQ-safe critical sections.
//!
//! On a single core the only concurrent caller of a structure guarded by a plain
//! spinlock is an IRQ handler on top of interrupted code. The flag alone would turn
//! that into a self-deadlock; masking IRQ delivery for the duration of the critical
//! section prevents it. A nested mask must not let an inner restore unmask an outer
//! critical section. [`IrqMask`] stands for the mask state of the core.
use vstd::prelude::*;

verus! {

/// The bit of the program status register that masks IRQ delivery.
pub const I_BIT: u32 = 0x80;

/// Whether IRQs are delivered on this core.
#[derive(Debug)]
pub struct IrqMask {
    enabled: bool,
}

impl View for IrqMask {
    type V = bool;

    /// Whether IRQs are delivered.
    closed spec fn view(&self) -> bool {
        self.enabled
    }
}

impl IrqMask {
    /// A core that delivers IRQs.
    pub fn new() -> (r: Self)
        ensures
            r@,
    {
        IrqMask { enabled: true }
    }

    /// Whether IRQs are delivered.
    pub fn is_enabled(&self) -> (r: bool)
        ensures
            r == self@,
    {
        self.enabled
    }

    /// Mask IRQ delivery and return the prior mask state, for use with
    /// [`IrqMask::restore`]. Nests: safe to call with IRQs already masked.
    pub fn disable(&mut self) -> (was_enabled: bool)
        ensures
            was_enabled == old(self)@,
            !final(self)@,
    {
        let was_enabled: bool = self.enabled;
        self.enabled = false;
        was_enabled
    }

    /// Restore the mask state previously returned by [`IrqMask::disable`]. If the
    /// saved state already had IRQs masked, the mask is left alone.
    pub fn restore(&mut self, was_enabled: bool)
        ensures
            final(self)@ == (was_enabled || old(self)@),
    {
        if was_enabled {
            self.enabled = true;
        }
    }
}

/// Whether a saved program status register had IRQ delivery enabled, so that
/// restoring it unmasks.
pub fn saved_enabled(cpsr: u32) -> (r: bool)
    ensures
        r == (cpsr & I_BIT == 0),
{
    cpsr & I_BIT == 0
}

/// What entering a critical section does: the saved state, and the mask state in it.
pub open spec fn entered(enabled: bool) -> (bool, bool) {
    (enabled, false)
}

/// The mask state after a critical section with a saved state was left: delivery starts
/// again only where it was on in front of that section.
pub open spec fn left(saved: bool, enabled: bool) -> bool {
    saved || enabled
}

/// A masked critical section, with the mask state in front of it.
#[derive(Debug)]
pub struct IrqGuard(bool);

impl View for IrqGuard {
    type V = bool;

    /// Whether IRQs were delivered in front of the critical section.
    closed spec fn view(&self) -> bool {
        self.0
    }
}

impl IrqGuard {
    /// Mask IRQ delivery and capture the prior mask state.
    pub fn new(irq: &mut IrqMask) -> (r: Self)
        ensures
            (r@, final(irq)@) == entered(old(irq)@),
    {
        IrqGuard(irq.disable())
    }

    /// End the critical section: restore the prior mask state.
    pub fn drop(self, irq: &mut IrqMask)
        ensures
            final(irq)@ == left(self@, old(irq)@),
    {
        irq.restore(self.0);
    }
}

/// IRQ-safe spinlock: a flag guarded by IRQ masking.
#[derive(Debug)]
pub struct IrqSpinlock {
    locked: bool,
}

impl View for IrqSpinlock {
    type V = bool;

    /// Whether the lock is held.
    closed spec fn view(&self) -> bool {
        self.locked
    }
}

/// A held lock.
#[derive(Debug)]
pub struct IrqSpinGuard {
    irq: IrqGuard,
}

impl View for IrqSpinGuard {
    type V = bool;

    /// Whether IRQs were delivered before the lock was taken.
    closed spec fn view(&self) -> bool {
        self.irq@
    }
}

impl IrqSpinlock {
    /// A free lock.
    pub fn new() -> (r: Self)
        ensures
            !r@,
    {
        IrqSpinlock { locked: false }
    }

    /// Whether the lock is held.
    pub fn is_locked(&self) -> (r: bool)
        ensures
            r == self@,
    {
        self.locked
    }

    /// Mask IRQ delivery, then take the flag. On a single core a held flag is never
    /// released while its holder is interrupted, so the lock must be free.
    pub fn lock(&mut self, irq: &mut IrqMask) -> (r: IrqSpinGuard)
        requires
            !old(self)@,
        ensures
            final(self)@,
            (r@, final(irq)@) == entered(old(irq)@),
    {
        let guard = IrqGuard::new(irq);
        self.locked = true;
        IrqSpinGuard { irq: guard }
    }

    /// Release the flag, then restore the prior IRQ mask.
    pub fn unlock(&mut self, guard: IrqSpinGuard, irq: &mut IrqMask)
        requires
            old(self)@,
        ensures
            !final(self)@,
            final(irq)@ == left(guard@, old(irq)@),
    {
        self.locked = false;
        guard.irq.drop(irq);
    }
}

/// Entering and leaving critical sections, one inside the other.
pub enum MaskStep {
    Enter,
    Leave,
}

/// The mask state and the saved states of the open critical sections after steps.
pub open spec fn mask_after(enabled: bool, steps: Seq<MaskStep>) -> (bool, Seq<bool>)
    decreases steps.len(),
{
    if steps.len() == 0 {
        (enabled, Seq::empty())
    } else {
        let (now, saved) = mask_after(enabled, steps.drop_last());
        match steps.last() {
            MaskStep::Enter => (entered(now).1, saved.push(entered(now).0)),
            MaskStep::Leave => if saved.len() == 0 {
                (now, saved)
            } else {
                (left(saved.last(), now), saved.drop_last())
            },
        }
    }
}

/// Law: IRQs stay masked as long as any critical section is open, however they
/// nest, and the outermost one restores the state in front of it.
pub proof fn law_nested_sections_stay_masked(enabled: bool, steps: Seq<MaskStep>)
    ensures
        ({
            let (now, saved) = mask_after(enabled, steps);
            &&& saved.len() > 0 ==> !now && saved[0] == enabled && forall|i: int|
                0 < i < saved.len() ==> !#[trigger] saved[i]
            &&& saved.len() == 0 ==> now == enabled
        }),
    decreases steps.len(),
{
    if steps.len() > 0 {
        law_nested_sections_stay_masked(enabled, steps.drop_last());
    }
}

/// The mask state after critical sections were entered one in the other and some of them
/// left again, the innermost first.
pub open spec fn nested(enabled: bool, entries: nat, leaves: nat) -> (bool, Seq<bool>) {
    mask_after(
        enabled,
        Seq::new(
            entries + leaves,
            |i: int|
                if i < entries {
                    MaskStep::Enter
                } else {
                    MaskStep::Leave
                },
        ),
    )
}

/// Law: guards made one after the other and dropped in reverse order keep IRQs masked
/// until the first of them is dropped, and that one restores the state in front of all.
pub proof fn law_outermost_guard_unmasks(enabled: bool, entries: nat, leaves: nat)
    requires
        leaves <= entries,
    ensures
        nested(enabled, entries, leaves).1.len() == entries - leaves,
        leaves < entries ==> !nested(enabled, entries, leaves).0,
        leaves == entries ==> nested(enabled, entries, leaves).0 == enabled,
{
    let steps = Seq::new(
        entries + leaves,
        |i: int|
            if i < entries {
                MaskStep::Enter
            } else {
                MaskStep::Leave
            },
    );
    lemma_open_sections(enabled, steps, entries, leaves);
    law_nested_sections_stay_masked(enabled, steps);
}

proof fn lemma_open_sections(enabled: bool, steps: Seq<MaskStep>, entries: nat, leaves: nat)
    requires
        leaves <= entries,
        steps.len() == entries + leaves,
        forall|i: int|
            0 <= i < steps.len() ==> #[trigger] steps[i] == (if i < entries {
                MaskStep::Enter
            } else {
                MaskStep::Leave
            }),
    ensures
        mask_after(enabled, steps).1.len() == entries - leaves,
    decreases steps.len(),
{
    if steps.len() > 0 {
        if leaves > 0 {
            lemma_open_sections(enabled, steps.drop_last(), entries, (leaves - 1) as nat);
        } else {
            lemma_open_sections(enabled, steps.drop_last(), (entries - 1) as nat, 0);
        }
    }
}

/// Law: a guard made while IRQs are masked never unmasks them.
pub proof fn law_inner_guard_never_unmasks(now: bool)
    ensures
        left(entered(false).0, now) == now,
{
}

} // verus!
