//! ARM GIC (Generic Interrupt Controller) driver logic.
//!
//! A GICv2 with its distributor at 0x0C000000 and its CPU interface at 0x0C002000.
//! What has to be written to which register is decided here; the accesses
//! themselves are the caller's.
use vstd::prelude::*;

pub mod gicc;
pub mod gicd;

verus! {

/// GIC distributor base address.
pub const GICD_BASE: usize = 0x0C00_0000;

/// Maximum number of IRQs supported.
pub const MAX_IRQS: u32 = 256;

/// Spurious interrupt ID.
pub const SPURIOUS: u32 = 1023;

/// A value to write to a register.
#[derive(Clone, Copy, PartialEq, Eq, Structural, Debug)]
pub struct RegisterWrite {
    pub addr: usize,
    pub value: u32,
}

/// Bits to set in a register; its other bits stay as they are.
#[derive(Clone, Copy, PartialEq, Eq, Structural, Debug)]
pub struct BitsToSet {
    pub addr: usize,
    pub mask: u32,
}

impl BitsToSet {
    /// The write that sets the bits, given what the register holds.
    pub fn on(&self, current: u32) -> (r: RegisterWrite)
        ensures
            r == (RegisterWrite { addr: self.addr, value: current | self.mask }),
    {
        RegisterWrite { addr: self.addr, value: current | self.mask }
    }
}

/// The number of interrupt lines that the controller type register tells.
pub open spec fn irq_lines(typer: u32) -> int {
    let lines = (typer as int % 32 + 1) * 32;
    if lines > MAX_IRQS {
        MAX_IRQS as int
    } else {
        lines
    }
}

/// One write.
pub open spec fn put(addr: int, value: u32) -> RegisterWrite {
    RegisterWrite { addr: addr as usize, value }
}

/// Disable the interrupts of the first registers and drop what is pending.
pub open spec fn clear_writes(regs: int) -> Seq<RegisterWrite>
    decreases regs,
{
    if regs <= 0 {
        Seq::empty()
    } else {
        clear_writes(regs - 1).push(put(GICD_BASE + 0x180 + (regs - 1) * 4, 0xFFFF_FFFF)).push(
            put(GICD_BASE + 0x280 + (regs - 1) * 4, 0xFFFF_FFFF),
        )
    }
}

/// Set the priorities of the first registers to the medium level.
pub open spec fn priority_writes(regs: int) -> Seq<RegisterWrite> {
    Seq::new(
        if regs > 0 {
            regs as nat
        } else {
            0
        },
        |i: int| put(GICD_BASE + 0x400 + i * 4, 0xA0A0_A0A0),
    )
}

/// Target the shared interrupts at core 0. The first eight registers belong to
/// private interrupts and are read-only.
pub open spec fn target_writes(regs: int) -> Seq<RegisterWrite> {
    Seq::new(
        if regs > 8 {
            (regs - 8) as nat
        } else {
            0
        },
        |i: int| put(GICD_BASE + 0x800 + (i + 8) * 4, 0x0101_0101),
    )
}

/// Enable the distributor, accept all priority levels and enable the CPU interface.
pub open spec fn enable_writes() -> Seq<RegisterWrite> {
    seq![
        put(gicd::CTLR as int, 1),
        put(gicc::PMR as int, 0xFF),
        put(gicc::CTLR as int, 1),
    ]
}

/// The write that comes before all others: the distributor is disabled while it is
/// configured.
pub fn begin_init() -> (r: RegisterWrite)
    ensures
        r == put(gicd::CTLR as int, 0),
{
    RegisterWrite { addr: gicd::CTLR, value: 0 }
}

/// The writes that initialize the distributor and the CPU interface, for a
/// controller type register: all interrupts disabled and none pending, all
/// priorities at the same level, all shared interrupts targeted at core 0, and then
/// both parts enabled.
pub fn init(typer: u32) -> (r: Vec<RegisterWrite>)
    ensures
        r@ == clear_writes(irq_lines(typer) / 32) + priority_writes(irq_lines(typer) / 4)
            + target_writes(irq_lines(typer) / 4) + enable_writes(),
{
    assert((typer & 0x1F) == typer % 32) by (bit_vector);
    let lines: u32 = ((typer & 0x1F) + 1) * 32;
    let num_irqs: u32 = if lines > MAX_IRQS {
        MAX_IRQS
    } else {
        lines
    };
    assert(num_irqs == irq_lines(typer));
    let mut out: Vec<RegisterWrite> = Vec::new();
    let num_regs: usize = ((num_irqs + 31) / 32) as usize;
    assert(num_regs == num_irqs as int / 32);
    let mut i: usize = 0;
    while i < num_regs
        invariant
            i <= num_regs <= 8,
            out@ == clear_writes(i as int),
        decreases num_regs - i,
    {
        out.push(RegisterWrite { addr: gicd::icenabler(i), value: 0xFFFF_FFFF });
        out.push(RegisterWrite { addr: gicd::icpendr(i), value: 0xFFFF_FFFF });
        i += 1;
    }
    let ghost cleared = out@;
    let num_prio_regs: usize = ((num_irqs + 3) / 4) as usize;
    assert(num_prio_regs == num_irqs as int / 4);
    let mut i: usize = 0;
    assert(out@ =~= cleared + priority_writes(0));
    while i < num_prio_regs
        invariant
            i <= num_prio_regs <= 64,
            out@ == cleared + priority_writes(i as int),
        decreases num_prio_regs - i,
    {
        out.push(RegisterWrite { addr: gicd::ipriorityr(i), value: 0xA0A0_A0A0 });
        i += 1;
        assert(out@ =~= cleared + priority_writes(i as int));
    }
    let ghost prioritized = out@;
    let mut i: usize = 8;
    assert(out@ =~= prioritized + target_writes(8));
    while i < num_prio_regs
        invariant
            8 <= i,
            i <= num_prio_regs || i == 8,
            num_prio_regs <= 64,
            out@ == prioritized + target_writes(i as int),
        decreases num_prio_regs - i,
    {
        out.push(RegisterWrite { addr: gicd::itargetsr(i), value: 0x0101_0101 });
        i += 1;
        assert(out@ =~= prioritized + target_writes(i as int));
    }
    assert(target_writes(i as int) =~= target_writes(num_prio_regs as int));
    let ghost targeted = out@;
    out.push(RegisterWrite { addr: gicd::CTLR, value: 1 });
    out.push(RegisterWrite { addr: gicc::PMR, value: 0xFF });
    out.push(RegisterWrite { addr: gicc::CTLR, value: 1 });
    assert(out@ =~= targeted + enable_writes());
    out
}

/// The register and the bit to set in it that enable an IRQ number.
pub fn enable_irq(irq: u32) -> (r: BitsToSet)
    ensures
        r.addr == GICD_BASE + 0x100 + irq as int / 32 * 4,
        r.mask == 1u32 << (irq % 32),
{
    let reg: usize = (irq / 32) as usize;
    let bit: u32 = irq % 32;
    BitsToSet { addr: gicd::isenabler(reg), mask: 1u32 << bit }
}

/// Law: enabling an IRQ number sets its bit and keeps every line enabled that was.
pub proof fn law_enabling_keeps_the_others(current: u32, irq: u32, line: u32)
    requires
        line < 32,
    ensures
        ({
            let after = current | (1u32 << (irq % 32));
            ((after >> line) & 1 == 1) == (((current >> line) & 1 == 1) || line == irq % 32)
        }),
{
    assert(((current | (1u32 << (irq % 32))) >> line) & 1 == 1 <==> (((current >> line) & 1 == 1)
        || line == irq % 32)) by (bit_vector)
        requires
            line < 32,
    ;
}

/// The write that disables an IRQ number.
pub fn disable_irq(irq: u32) -> (r: RegisterWrite)
    ensures
        r == put(GICD_BASE + 0x180 + irq as int / 32 * 4, 1u32 << (irq % 32)),
{
    let reg: usize = (irq / 32) as usize;
    let bit: u32 = irq % 32;
    RegisterWrite { addr: gicd::icenabler(reg), value: 1u32 << bit }
}

/// The interrupt ID (10 bits) in a value of the acknowledge register. ID 1023 is
/// spurious.
pub fn acknowledge(iar: u32) -> (r: u32)
    ensures
        r == iar % 1024,
{
    assert(iar & 0x3FF == iar % 1024) by (bit_vector);
    iar & 0x3FF
}

/// The write that signals the end of interrupt handling.
pub fn end_of_interrupt(irq: u32) -> (r: RegisterWrite)
    ensures
        r == put(gicc::EOIR as int, irq),
{
    RegisterWrite { addr: gicc::EOIR, value: irq }
}

/// Law: the initialization stays within the register blocks of the controller, and
/// no interrupt is enabled by it: it ends with the distributor and the CPU
/// interface enabled and writes no set-enable register.
pub proof fn law_init_enables_no_interrupt(typer: u32, i: int)
    requires
        0 <= i < (clear_writes(irq_lines(typer) / 32) + priority_writes(irq_lines(typer) / 4)
            + target_writes(irq_lines(typer) / 4) + enable_writes()).len(),
    ensures
        ({
            let w = (clear_writes(irq_lines(typer) / 32) + priority_writes(irq_lines(typer) / 4)
                + target_writes(irq_lines(typer) / 4) + enable_writes())[i];
            &&& GICD_BASE <= w.addr < GICD_BASE + 0x3000
            &&& !(GICD_BASE + 0x100 <= w.addr < GICD_BASE + 0x180)
        }),
{
    let n = irq_lines(typer);
    lemma_clear_writes(n / 32);
    let a = clear_writes(n / 32);
    let b = priority_writes(n / 4);
    let c = target_writes(n / 4);
    let d = enable_writes();
    let all = a + b + c + d;
    if i < a.len() {
        assert(all[i] == a[i]);
    } else if i < a.len() + b.len() {
        assert(all[i] == b[i - a.len()]);
    } else if i < a.len() + b.len() + c.len() {
        assert(all[i] == c[i - a.len() - b.len()]);
    } else {
        assert(all[i] == d[i - a.len() - b.len() - c.len()]);
    }
}

proof fn lemma_clear_writes(regs: int)
    requires
        0 <= regs <= 8,
    ensures
        forall|i: int|
            0 <= i < clear_writes(regs).len() ==> GICD_BASE + 0x180 <= (#[trigger] clear_writes(
                regs,
            )[i]).addr < GICD_BASE + 0x300,
    decreases regs,
{
    if regs > 0 {
        lemma_clear_writes(regs - 1);
        let before = clear_writes(regs - 1);
        let now = clear_writes(regs);
        assert forall|i: int| 0 <= i < now.len() implies GICD_BASE + 0x180 <= (#[trigger] now[
            i]).addr < GICD_BASE + 0x300 by {
            if i < before.len() {
                assert(now[i] == before[i]);
            }
        }
    }
}

} // verus!
