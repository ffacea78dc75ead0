//! Interrupt controller.
use thumos::gic::{
    acknowledge, begin_init, disable_irq, enable_irq, end_of_interrupt, gicc, gicd, init,
    BitsToSet, RegisterWrite, GICD_BASE, SPURIOUS,
};
use thumos::heap_stub::stats;

#[test]
fn initialization_for_the_smallest_controller() {
    let writes = init(0);
    assert_eq!(writes.len(), 2 + 8 + 3);
    assert_eq!(
        writes[0],
        RegisterWrite {
            addr: GICD_BASE + 0x180,
            value: 0xFFFF_FFFF
        }
    );
    assert_eq!(writes[1].addr, GICD_BASE + 0x280);
    assert_eq!(
        writes[2],
        RegisterWrite {
            addr: GICD_BASE + 0x400,
            value: 0xA0A0_A0A0
        }
    );
    assert_eq!(
        &writes[10..],
        &[
            RegisterWrite {
                addr: gicd::CTLR,
                value: 1
            },
            RegisterWrite {
                addr: gicc::PMR,
                value: 0xFF
            },
            RegisterWrite {
                addr: gicc::CTLR,
                value: 1
            },
        ]
    );
    assert_eq!(
        begin_init(),
        RegisterWrite {
            addr: gicd::CTLR,
            value: 0
        }
    );
}

#[test]
fn initialization_is_capped_and_targets_shared_interrupts() {
    let writes = init(0xFFFF_FFFF);
    assert_eq!(writes.len(), 16 + 64 + 56 + 3);
    assert_eq!(
        writes[80],
        RegisterWrite {
            addr: GICD_BASE + 0x800 + 8 * 4,
            value: 0x0101_0101
        }
    );
    assert!(!writes
        .iter()
        .any(|w| w.addr >= gicd::isenabler(0) && w.addr < gicd::icenabler(0)));
}

#[test]
fn irqs_are_enabled_and_disabled_by_their_bit() {
    assert_eq!(
        enable_irq(33),
        BitsToSet {
            addr: gicd::isenabler(1),
            mask: 2
        }
    );
    assert_eq!(
        enable_irq(33).on(0x8000_0001),
        RegisterWrite {
            addr: gicd::isenabler(1),
            value: 0x8000_0003
        },
        "lines that are enabled stay enabled"
    );
    assert_eq!(
        disable_irq(31),
        RegisterWrite {
            addr: gicd::icenabler(0),
            value: 0x8000_0000
        }
    );
    assert_eq!(acknowledge(0xFFFF_FC21), 33);
    assert_eq!(acknowledge(0x3FF), SPURIOUS);
    assert_eq!(
        end_of_interrupt(33),
        RegisterWrite {
            addr: gicc::EOIR,
            value: 33
        }
    );
}

#[test]
fn register_addresses() {
    assert_eq!(gicd::TYPER, 0x0C00_0004);
    assert_eq!(gicd::icpendr(2), 0x0C00_0288);
    assert_eq!(gicd::ipriorityr(1), 0x0C00_0404);
    assert_eq!(gicd::itargetsr(1), 0x0C00_0804);
    assert_eq!(gicd::icfgr(1), 0x0C00_0C04);
    assert_eq!(gicc::IAR, 0x0C00_200C);
}

#[test]
fn without_a_heap_nothing_leaks() {
    let (allocs, frees) = stats();
    assert_eq!(allocs, frees);
}
