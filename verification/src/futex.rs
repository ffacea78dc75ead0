//! Futex subsystem: fast userspace mutex kernel support.
//!
//! `FUTEX_WAIT` (op 0) suspends the calling process where the futex word still has
//! the expected value; `FUTEX_WAKE` (op 1) wakes processes that wait on an address.
//! The waiter table has a fixed number of slots. What the kernel has to do to
//! processes comes back in a [`FutexResult`]; the word at the address is read by
//! the caller, and only where [`validate_user_buffer`] admits the address.
use crate::memguard::{is_user_buffer, validate_user_buffer};
use vstd::prelude::*;

verus! {

/// EAGAIN: value mismatch (two's complement -11).
pub const EAGAIN: u32 = 0xFFFF_FFF5;

/// ENOMEM: waiter table exhausted (two's complement -12). Distinct from EAGAIN: a
/// full table does not free itself when the word changes.
pub const ENOMEM: u32 = 0xFFFF_FFF4;

/// EINVAL: unknown op or bad address (two's complement -22).
pub const EINVAL: u32 = 0xFFFF_FFEA;

/// `FUTEX_WAIT` operation code.
pub const FUTEX_WAIT: u32 = 0;

/// `FUTEX_WAKE` operation code.
pub const FUTEX_WAKE: u32 = 1;

/// Maximum number of simultaneously sleeping futex waiters.
pub const MAX_FUTEX_WAITERS: usize = 32;

/// A single futex waiter record.
#[derive(Clone, Copy, PartialEq, Eq, Structural, Debug)]
pub struct FutexWaiter {
    /// The address being waited on.
    pub addr: u32,
    /// PID of the waiting process.
    pub pid: u32,
}

/// The waiter table.
pub struct FutexTable {
    slots: [Option<FutexWaiter>; MAX_FUTEX_WAITERS],
}

/// What a futex call returns and asks of the scheduler.
#[derive(Debug)]
pub struct FutexResult {
    /// The value returned to the caller; for a caller that blocks, the value
    /// returned once it has been woken.
    pub ret: u32,
    /// Whether the calling process blocks.
    pub block: bool,
    /// The processes that become ready, in the order of their slots.
    pub woken: Vec<u8>,
}

impl View for FutexTable {
    type V = Seq<Option<FutexWaiter>>;

    closed spec fn view(&self) -> Seq<Option<FutexWaiter>> {
        self.slots@
    }
}

/// The first free slot.
pub open spec fn first_free(slots: Seq<Option<FutexWaiter>>, from: int) -> Option<int>
    decreases slots.len() - from,
{
    if from < 0 || from >= slots.len() {
        None
    } else if slots[from] is None {
        Some(from)
    } else {
        first_free(slots, from + 1)
    }
}

/// Whether a slot holds a waiter on an address.
pub open spec fn waits_on(slot: Option<FutexWaiter>, addr: u32) -> bool {
    slot matches Some(w) && w.addr == addr
}

/// Whether a slot belongs to a process.
pub open spec fn belongs_to(slot: Option<FutexWaiter>, pid: u32) -> bool {
    slot matches Some(w) && w.pid == pid
}

/// The processes that a wake-up of at most `max` finds in the first `n` slots.
pub open spec fn wakened(slots: Seq<Option<FutexWaiter>>, addr: u32, max: int, n: int) -> Seq<u8>
    decreases n,
{
    if n <= 0 {
        Seq::empty()
    } else {
        let before = wakened(slots, addr, max, n - 1);
        if before.len() < max && waits_on(slots[n - 1], addr) {
            before.push((slots[n - 1]->0.pid % 256) as u8)
        } else {
            before
        }
    }
}

/// The table after a wake-up: the slots of woken processes are free.
pub open spec fn after_wake(slots: Seq<Option<FutexWaiter>>, addr: u32, max: int) -> Seq<
    Option<FutexWaiter>,
> {
    Seq::new(
        slots.len(),
        |i: int|
            if waits_on(slots[i], addr) && wakened(slots, addr, max, i).len() < max {
                None
            } else {
                slots[i]
            },
    )
}

/// The table after the slots of a process were freed.
pub open spec fn without_pid(slots: Seq<Option<FutexWaiter>>, pid: u32) -> Seq<
    Option<FutexWaiter>,
> {
    slots.map_values(
        |slot: Option<FutexWaiter>|
            if belongs_to(slot, pid) {
                None
            } else {
                slot
            },
    )
}

/// What a wait does: the table behind it, the returned value, and whether the
/// caller blocks.
pub open spec fn wait_outcome(
    slots: Seq<Option<FutexWaiter>>,
    addr: u32,
    val: u32,
    word: u32,
    pid: u32,
) -> (Seq<Option<FutexWaiter>>, u32, bool) {
    if !is_user_buffer(addr as int, 4) {
        (slots, EINVAL, false)
    } else if word != val {
        (slots, EAGAIN, false)
    } else {
        match first_free(slots, 0) {
            None => (slots, ENOMEM, false),
            Some(i) => (slots.update(i, Some(FutexWaiter { addr, pid })), 0u32, true),
        }
    }
}

impl FutexTable {
    /// A table without waiters.
    pub fn new() -> (r: Self)
        ensures
            r@ == Seq::new(MAX_FUTEX_WAITERS as nat, |i: int| None::<FutexWaiter>),
    {
        let empty: Option<FutexWaiter> = None;
        let r = FutexTable { slots: [empty; MAX_FUTEX_WAITERS] };
        assert(r@ =~= Seq::new(MAX_FUTEX_WAITERS as nat, |i: int| None::<FutexWaiter>));
        r
    }

    /// The waiter in a slot.
    pub fn waiter(&self, i: usize) -> (r: Option<FutexWaiter>)
        requires
            i < MAX_FUTEX_WAITERS,
        ensures
            r == self@[i as int],
    {
        self.slots[i]
    }

    /// Register a waiter in the first free slot. Returns `false` where none is free.
    pub fn insert_waiter(&mut self, addr: u32, pid: u32) -> (r: bool)
        ensures
            match first_free(old(self)@, 0) {
                Some(i) => r && final(self)@ == old(self)@.update(
                    i,
                    Some(FutexWaiter { addr, pid }),
                ),
                None => !r && final(self)@ == old(self)@,
            },
    {
        let mut i: usize = 0;
        while i < MAX_FUTEX_WAITERS
            invariant
                i <= MAX_FUTEX_WAITERS,
                self.slots == old(self).slots,
                first_free(self@, 0) == first_free(self@, i as int),
            decreases MAX_FUTEX_WAITERS - i,
        {
            if self.slots[i].is_none() {
                self.slots[i] = Some(FutexWaiter { addr, pid });
                return true;
            }
            i += 1;
        }
        false
    }

    /// Whether any waiter slot currently belongs to `pid`.
    pub fn has_waiter_for_pid(&self, pid: u32) -> (r: bool)
        ensures
            r == exists|i: int| 0 <= i < self@.len() && belongs_to(#[trigger] self@[i], pid),
    {
        let mut i: usize = 0;
        while i < MAX_FUTEX_WAITERS
            invariant
                i <= MAX_FUTEX_WAITERS,
                forall|j: int| 0 <= j < i ==> !belongs_to(#[trigger] self@[j], pid),
            decreases MAX_FUTEX_WAITERS - i,
        {
            if let Some(w) = self.slots[i] {
                if w.pid == pid {
                    assert(belongs_to(self@[i as int], pid));
                    return true;
                }
            }
            i += 1;
        }
        false
    }

    /// Free all waiter slots belonging to a process that has died. A dead process
    /// can never be woken, so its slot would stay occupied for good.
    pub fn free_waiters_for_pid(&mut self, pid: u32)
        ensures
            final(self)@ == without_pid(old(self)@, pid),
    {
        let mut i: usize = 0;
        while i < MAX_FUTEX_WAITERS
            invariant
                i <= MAX_FUTEX_WAITERS,
                forall|j: int|
                    0 <= j < MAX_FUTEX_WAITERS ==> #[trigger] self@[j] == (if j < i {
                        without_pid(old(self)@, pid)[j]
                    } else {
                        old(self)@[j]
                    }),
            decreases MAX_FUTEX_WAITERS - i,
        {
            assert(self@[i as int] == old(self)@[i as int]);
            if let Some(w) = self.slots[i] {
                if w.pid == pid {
                    self.slots[i] = None;
                }
            }
            i += 1;
        }
        assert(self@ =~= without_pid(old(self)@, pid));
    }
}

/// A result without effect on processes.
fn plain(ret: u32) -> (r: FutexResult)
    ensures
        r.ret == ret,
        !r.block,
        r.woken@ == Seq::<u8>::empty(),
{
    FutexResult { ret, block: false, woken: Vec::new() }
}

/// `FUTEX_WAIT`: if the word at `addr` is `val`, block the calling process.
///
/// Returns 0 after being woken, EAGAIN if the word differs, EINVAL if `addr` does
/// not lie within user-accessible memory, or ENOMEM if no slot is free.
pub fn sys_futex_wait(
    table: &mut FutexTable,
    addr: u32,
    val: u32,
    word: u32,
    pid: u32,
) -> (r: FutexResult)
    ensures
        (final(table)@, r.ret, r.block) == wait_outcome(old(table)@, addr, val, word, pid),
        r.woken@ == Seq::<u8>::empty(),
{
    if !validate_user_buffer(addr as usize, 4) {
        return plain(EINVAL);
    }
    if word != val {
        return plain(EAGAIN);
    }
    if !table.insert_waiter(addr, pid) {
        return plain(ENOMEM);
    }
    FutexResult { ret: 0, block: true, woken: Vec::new() }
}

/// `FUTEX_WAKE`: wake up to `max_wake` processes waiting on `addr`.
///
/// Returns the number of processes woken.
pub fn sys_futex_wake(table: &mut FutexTable, addr: u32, max_wake: u32) -> (r: FutexResult)
    ensures
        !r.block,
        r.ret == r.woken@.len(),
        addr == 0 ==> r.woken@ == Seq::<u8>::empty() && final(table)@ == old(table)@,
        addr != 0 ==> r.woken@ == wakened(
            old(table)@,
            addr,
            max_wake as int,
            MAX_FUTEX_WAITERS as int,
        ) && final(table)@ == after_wake(old(table)@, addr, max_wake as int),
{
    if addr == 0 {
        return plain(0);
    }
    let ghost given = table@;
    let mut woken: Vec<u8> = Vec::new();
    let mut count: u32 = 0;
    let mut i: usize = 0;
    while i < MAX_FUTEX_WAITERS
        invariant
            i <= MAX_FUTEX_WAITERS,
            given == old(table)@,
            given.len() == MAX_FUTEX_WAITERS,
            count == woken@.len(),
            count <= i,
            woken@ == wakened(given, addr, max_wake as int, i as int),
            forall|j: int|
                0 <= j < MAX_FUTEX_WAITERS ==> #[trigger] table@[j] == (if j < i {
                    after_wake(given, addr, max_wake as int)[j]
                } else {
                    given[j]
                }),
        decreases MAX_FUTEX_WAITERS - i,
    {
        assert(table@[i as int] == given[i as int]);
        if count < max_wake {
            if let Some(w) = table.slots[i] {
                if w.addr == addr {
                    table.slots[i] = None;
                    woken.push((w.pid % 256) as u8);
                    count += 1;
                }
            }
        }
        i += 1;
    }
    assert(table@ =~= after_wake(given, addr, max_wake as int));
    FutexResult { ret: count, block: false, woken }
}

/// Dispatch a futex call.
///
/// `val` is the expected value for WAIT and the most processes to wake for WAKE;
/// `word` is the value at `addr`, and `pid` the calling process.
pub fn sys_futex(
    table: &mut FutexTable,
    addr: u32,
    op: u32,
    val: u32,
    word: u32,
    pid: u32,
) -> (r: FutexResult)
    ensures
        op == FUTEX_WAIT ==> (final(table)@, r.ret, r.block) == wait_outcome(
            old(table)@,
            addr,
            val,
            word,
            pid,
        ) && r.woken@ == Seq::<u8>::empty(),
        op == FUTEX_WAKE ==> {
            &&& !r.block
            &&& r.ret == r.woken@.len()
            &&& addr == 0 ==> r.woken@ == Seq::<u8>::empty() && final(table)@ == old(table)@
            &&& addr != 0 ==> r.woken@ == wakened(
                old(table)@,
                addr,
                val as int,
                MAX_FUTEX_WAITERS as int,
            ) && final(table)@ == after_wake(old(table)@, addr, val as int)
        },
        op != FUTEX_WAIT && op != FUTEX_WAKE ==> r.ret == EINVAL && !r.block && r.woken@
            == Seq::<u8>::empty() && final(table)@ == old(table)@,
{
    if op == FUTEX_WAIT {
        sys_futex_wait(table, addr, val, word, pid)
    } else if op == FUTEX_WAKE {
        sys_futex_wake(table, addr, val)
    } else {
        plain(EINVAL)
    }
}

// ---------------------------------------------------------------------------
// Laws
// ---------------------------------------------------------------------------

/// How many slots of the first `n` hold a waiter on an address.
pub open spec fn waiting(slots: Seq<Option<FutexWaiter>>, addr: u32, n: int) -> int
    decreases n,
{
    if n <= 0 {
        0
    } else {
        waiting(slots, addr, n - 1) + if waits_on(slots[n - 1], addr) {
            1int
        } else {
            0
        }
    }
}

/// Law: a wake-up wakes as many processes as wait on the address, but no more than
/// asked for.
pub proof fn law_wake_count(slots: Seq<Option<FutexWaiter>>, addr: u32, max: int, n: int)
    requires
        0 <= n <= slots.len(),
        0 <= max,
    ensures
        wakened(slots, addr, max, n).len() == if waiting(slots, addr, n) < max {
            waiting(slots, addr, n)
        } else {
            max
        },
        waiting(slots, addr, n) >= 0,
    decreases n,
{
    if n > 0 {
        law_wake_count(slots, addr, max, n - 1);
    }
}

/// Law: a wake-up leaves every waiter on another address asleep, and it only ever
/// empties slots.
pub proof fn law_wake_leaves_others(slots: Seq<Option<FutexWaiter>>, addr: u32, max: int, i: int)
    requires
        0 <= i < slots.len(),
        !waits_on(slots[i], addr),
    ensures
        after_wake(slots, addr, max)[i] == slots[i],
{
}

/// Law: a wake-up that is not limited leaves no waiter on the address.
pub proof fn law_wake_all(slots: Seq<Option<FutexWaiter>>, addr: u32, max: int, i: int)
    requires
        0 <= i < slots.len(),
        max >= slots.len(),
    ensures
        !waits_on(after_wake(slots, addr, max)[i], addr),
{
    lemma_few_woken(slots, addr, max, i);
}

proof fn lemma_few_woken(slots: Seq<Option<FutexWaiter>>, addr: u32, max: int, n: int)
    requires
        0 <= n <= slots.len(),
    ensures
        wakened(slots, addr, max, n).len() <= n,
    decreases n,
{
    if n > 0 {
        lemma_few_woken(slots, addr, max, n - 1);
    }
}

/// Law: a process that waited on an address is woken by an unlimited wake-up of
/// it, and its slot is free again.
pub proof fn law_wait_then_wake(
    slots: Seq<Option<FutexWaiter>>,
    addr: u32,
    val: u32,
    pid: u32,
    max: int,
)
    requires
        is_user_buffer(addr as int, 4),
        first_free(slots, 0) is Some,
        max >= slots.len(),
        pid < 256,
    ensures
        ({
            let (waiting, ret, block) = wait_outcome(slots, addr, val, val, pid);
            &&& block
            &&& ret == 0
            &&& wakened(waiting, addr, max, waiting.len() as int).contains(pid as u8)
            &&& forall|i: int|
                0 <= i < slots.len() ==> !waits_on(
                    #[trigger] after_wake(waiting, addr, max)[i],
                    addr,
                )
        }),
{
    let (waiting, ret, block) = wait_outcome(slots, addr, val, val, pid);
    lemma_first_free(slots, 0);
    let at = first_free(slots, 0)->0;
    lemma_woken_contains(waiting, addr, max, waiting.len() as int, at);
    assert forall|i: int| 0 <= i < slots.len() implies !waits_on(
        #[trigger] after_wake(waiting, addr, max)[i],
        addr,
    ) by {
        law_wake_all(waiting, addr, max, i);
    }
}

proof fn lemma_first_free(slots: Seq<Option<FutexWaiter>>, from: int)
    requires
        0 <= from,
    ensures
        first_free(slots, from) matches Some(i) ==> from <= i < slots.len() && slots[i] is None,
        first_free(slots, from) is None ==> forall|i: int|
            from <= i < slots.len() ==> #[trigger] slots[i] is Some,
    decreases slots.len() - from,
{
    if from < slots.len() && slots[from] is Some {
        lemma_first_free(slots, from + 1);
    }
}

proof fn lemma_woken_contains(
    slots: Seq<Option<FutexWaiter>>,
    addr: u32,
    max: int,
    n: int,
    at: int,
)
    requires
        0 <= at < n <= slots.len(),
        max >= slots.len(),
        waits_on(slots[at], addr),
        slots[at]->0.pid < 256,
    ensures
        wakened(slots, addr, max, n).contains(slots[at]->0.pid as u8),
    decreases n,
{
    lemma_few_woken(slots, addr, max, n - 1);
    let before = wakened(slots, addr, max, n - 1);
    let now = wakened(slots, addr, max, n);
    let pid = slots[at]->0.pid as u8;
    if at < n - 1 {
        lemma_woken_contains(slots, addr, max, n - 1, at);
        let k = choose|k: int| 0 <= k < before.len() && before[k] == pid;
        assert(now[k] == pid);
    } else {
        assert(now.last() == pid);
    }
}

/// Law: a wait fails for want of room exactly where every slot is taken, and that
/// is told apart from a word that has changed.
pub proof fn law_full_table_is_reported(
    slots: Seq<Option<FutexWaiter>>,
    addr: u32,
    val: u32,
    word: u32,
    pid: u32,
)
    requires
        is_user_buffer(addr as int, 4),
    ensures
        (wait_outcome(slots, addr, val, word, pid).1 == ENOMEM) <==> (word == val && forall|i: int|
            0 <= i < slots.len() ==> #[trigger] slots[i] is Some),
        (wait_outcome(slots, addr, val, word, pid).1 == EAGAIN) <==> word != val,
{
    lemma_first_free(slots, 0);
}

/// Law: a dead process holds no slot, and the slots of others are untouched.
pub proof fn law_dead_process_holds_no_slot(slots: Seq<Option<FutexWaiter>>, pid: u32, i: int)
    requires
        0 <= i < slots.len(),
    ensures
        !belongs_to(without_pid(slots, pid)[i], pid),
        !belongs_to(slots[i], pid) ==> without_pid(slots, pid)[i] == slots[i],
{
}

} // verus!
