//! Futexes.
use thumos::board::{KERNEL_END, KERNEL_LOAD, RAM_END};
use thumos::futex::{
    sys_futex, sys_futex_wait, sys_futex_wake, FutexTable, FutexWaiter, EAGAIN, EINVAL, ENOMEM,
    FUTEX_WAIT, FUTEX_WAKE, MAX_FUTEX_WAITERS,
};
use thumos::memguard::validate_user_buffer;

/// An address in user memory.
const ADDR: u32 = 0x5000_1000;

#[test]
fn futex_wait_returns_eagain_on_mismatch() {
    let mut table = FutexTable::new();
    let word: u32 = 42;
    let result = sys_futex_wait(&mut table, ADDR, 99, word, 1);
    assert_eq!(
        result.ret, EAGAIN,
        "mismatch on futex word should return EAGAIN"
    );
    assert!(!result.block);
}

#[test]
fn futex_wait_rejects_kernel_range_addr() {
    let mut table = FutexTable::new();
    let result = sys_futex_wait(&mut table, KERNEL_LOAD as u32, 0, 0, 1);
    assert_eq!(
        result.ret, EINVAL,
        "kernel-range addr must return EINVAL without a load"
    );
}

#[test]
fn futex_wake_returns_zero_with_no_waiters() {
    let mut table = FutexTable::new();
    let woken = sys_futex_wake(&mut table, ADDR, 10);
    assert_eq!(woken.ret, 0, "no waiters: 0 processes woken");
    assert!(woken.woken.is_empty());
}

#[test]
fn futex_invalid_op_returns_einval() {
    let mut table = FutexTable::new();
    let word: u32 = 0;
    let result = sys_futex(&mut table, ADDR, 99, 0, word, 1);
    assert_eq!(result.ret, EINVAL, "unknown op should return EINVAL");
}

#[test]
fn futex_null_addr_returns_einval_or_eagain() {
    let mut table = FutexTable::new();
    let result_wait = sys_futex_wait(&mut table, 0, 0, 0, 1);
    assert_eq!(result_wait.ret, EINVAL);

    let result_wake = sys_futex_wake(&mut table, 0, 1);
    assert_eq!(result_wake.ret, 0);
}

#[test]
fn free_waiters_for_pid_clears_only_matching_slots() {
    let mut table = FutexTable::new();
    assert!(table.insert_waiter(0x1000, 4));
    assert!(table.insert_waiter(0x2000, 7));

    table.free_waiters_for_pid(4);

    assert!(
        table.waiter(0).is_none(),
        "dead pid's waiter slot must be freed"
    );
    assert!(
        table.waiter(1).is_some(),
        "other pids' waiter slots must be untouched"
    );
    assert_eq!(table.waiter(1).map(|w| w.pid), Some(7));
    assert!(
        (0..MAX_FUTEX_WAITERS).any(|i| table.waiter(i).is_none()),
        "a freed slot must be available for reuse"
    );
    assert!(!table.has_waiter_for_pid(4));
    assert!(table.has_waiter_for_pid(7));
}

#[test]
fn futex_wait_returns_enomem_when_waiter_table_full() {
    let mut table = FutexTable::new();
    for i in 0..MAX_FUTEX_WAITERS {
        assert!(table.insert_waiter(0x1000 + i as u32, i as u32));
    }
    assert!(!table.insert_waiter(1, 1));

    let word: u32 = 42;
    let result = sys_futex_wait(&mut table, ADDR, 42, word, 1);
    assert_eq!(
        result.ret, ENOMEM,
        "a full waiter table must return ENOMEM, distinct from EAGAIN's value-mismatch signal"
    );
}

#[test]
fn a_waiter_blocks_until_it_is_woken() {
    let mut table = FutexTable::new();
    let waited = sys_futex(&mut table, ADDR, FUTEX_WAIT, 7, 7, 9);
    assert_eq!((waited.ret, waited.block), (0, true));
    assert_eq!(table.waiter(0), Some(FutexWaiter { addr: ADDR, pid: 9 }));

    let other = sys_futex(&mut table, ADDR + 4, FUTEX_WAKE, 10, 0, 1);
    assert_eq!(other.ret, 0, "another address wakes nobody");
    assert!(table.has_waiter_for_pid(9));

    let woken = sys_futex(&mut table, ADDR, FUTEX_WAKE, 10, 0, 1);
    assert_eq!((woken.ret, woken.block), (1, false));
    assert_eq!(woken.woken, vec![9]);
    assert!(!table.has_waiter_for_pid(9));
}

#[test]
fn a_wake_is_limited_and_goes_by_slots() {
    let mut table = FutexTable::new();
    for pid in 1..=4 {
        assert!(sys_futex_wait(&mut table, ADDR, 0, 0, pid).block);
    }
    let woken = sys_futex_wake(&mut table, ADDR, 2);
    assert_eq!(woken.woken, vec![1, 2]);
    assert_eq!(sys_futex_wake(&mut table, ADDR, 0).ret, 0);
    assert_eq!(sys_futex_wake(&mut table, ADDR, 9).woken, vec![3, 4]);
}

#[test]
fn user_buffers_lie_behind_the_kernel_and_within_ram() {
    assert!(validate_user_buffer(KERNEL_END, 4));
    assert!(!validate_user_buffer(KERNEL_END - 1, 4));
    assert!(validate_user_buffer(RAM_END - 4, 4));
    assert!(!validate_user_buffer(RAM_END - 3, 4));
    assert!(!validate_user_buffer(0, 4));
    assert!(!validate_user_buffer(KERNEL_END, usize::MAX));
}
