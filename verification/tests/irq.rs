//! Interrupt masking.
use thumos::irq::{saved_enabled, IrqGuard, IrqMask, IrqSpinlock};

#[test]
fn single_guard_round_trips() {
    let mut irq = IrqMask::new();
    assert!(irq.is_enabled(), "starts unmasked");
    let g = IrqGuard::new(&mut irq);
    assert!(!irq.is_enabled(), "guard must mask IRQ delivery");
    g.drop(&mut irq);
    assert!(irq.is_enabled(), "dropping the guard must restore IRQ delivery");
}

#[test]
fn nested_guards_leave_irqs_masked_until_outer_drops() {
    let mut irq = IrqMask::new();
    let outer = IrqGuard::new(&mut irq);
    assert!(!irq.is_enabled(), "outer guard masks");
    {
        let inner = IrqGuard::new(&mut irq);
        assert!(!irq.is_enabled(), "inner guard: still masked");
        inner.drop(&mut irq);
        assert!(!irq.is_enabled(), "inner drop must not unmask -- outer still holds");
    }
    outer.drop(&mut irq);
    assert!(irq.is_enabled(), "outer drop restores unmasked");
}

#[test]
fn spinlock_masks_irqs_while_held() {
    let mut irq = IrqMask::new();
    let mut lock = IrqSpinlock::new();
    assert!(irq.is_enabled(), "starts unmasked");
    let guard = lock.lock(&mut irq);
    assert!(!irq.is_enabled(), "lock() must mask IRQ delivery while held");
    lock.unlock(guard, &mut irq);
    assert!(irq.is_enabled(), "dropping the guard must restore IRQ delivery");
}

#[test]
fn spinlock_clears_the_flag_and_unmasks_on_drop() {
    let mut irq = IrqMask::new();
    let mut lock = IrqSpinlock::new();
    let guard = lock.lock(&mut irq);
    assert!(lock.is_locked(), "flag set while held");
    lock.unlock(guard, &mut irq);
    assert!(!lock.is_locked(), "flag must be clear after drop");
    assert!(irq.is_enabled(), "and IRQs unmasked after drop");
}

#[test]
fn a_lock_inside_a_guard_leaves_irqs_masked() {
    let mut irq = IrqMask::new();
    let mut lock = IrqSpinlock::new();
    let outer = IrqGuard::new(&mut irq);
    let guard = lock.lock(&mut irq);
    lock.unlock(guard, &mut irq);
    assert!(!lock.is_locked());
    assert!(!irq.is_enabled(), "the outer section is still open");
    outer.drop(&mut irq);
    assert!(irq.is_enabled());
}

#[test]
fn the_status_register_tells_the_mask() {
    assert!(saved_enabled(0x0000_001F));
    assert!(!saved_enabled(0x0000_009F));
    assert!(saved_enabled(0xFFFF_FF7F));
}

#[test]
fn guards_dropped_in_reverse_order_unmask_with_the_last() {
    let mut irq = IrqMask::new();
    let mut guards: Vec<IrqGuard> = (0..5).map(|_| IrqGuard::new(&mut irq)).collect();
    while guards.len() > 1 {
        guards.pop().expect("a guard").drop(&mut irq);
        assert!(!irq.is_enabled(), "an outer guard still holds");
    }
    guards.pop().expect("a guard").drop(&mut irq);
    assert!(irq.is_enabled());
}
