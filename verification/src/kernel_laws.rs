//! What messages, futexes and the interrupt controller promise.
use crate::board::{
    DISPLAY_HEIGHT, DISPLAY_WIDTH, KERNEL_END, KERNEL_LOAD, LFS_PARTITION_SIZE,
    LFS_PARTITION_START, LFS_PREAMBLE_SECTORS, RAM_END, RAM_START, USER_TEXT_BASE,
};
use crate::futex::{
    after_wake, wait_outcome, waiting, wakened, without_pid, FutexWaiter, EAGAIN, EINVAL, ENOMEM,
    FUTEX_WAIT, FUTEX_WAKE,
};
use crate::gic::{
    clear_writes, enable_writes, irq_lines, priority_writes, put, target_writes, RegisterWrite,
};
use crate::ipc::{carried, delivered, received, IpcSendError, MessageModel, Pid};
use crate::irq::{entered, left};
use crate::memguard::is_user_buffer;
use vstd::prelude::*;

verus! {

// ---------------------------------------------------------------------------
// Messages
// ---------------------------------------------------------------------------

/// Law: a message carries its first 256 bytes, in their order, and no byte more.
pub proof fn law_messages_carry_their_first_bytes(payload: Seq<u8>, i: int)
    ensures
        carried(payload).len() == if payload.len() < 256 {
            payload.len() as int
        } else {
            256
        },
        0 <= i < carried(payload).len() ==> carried(payload)[i] == payload[i],
{
}

/// Law: a message is taken exactly where there is such a process and fewer than sixteen
/// messages wait for it; it comes to stand behind them, with its tag and payload and under the
/// PID of its sender, whatever sender it named.
pub proof fn law_messages_are_taken_while_there_is_room(
    inboxes: Seq<Seq<MessageModel>>,
    sender: Pid,
    to: Pid,
    msg: MessageModel,
)
    requires
        inboxes.len() == 16,
    ensures
        ({
            let (after, sent) = delivered(inboxes, sender, to, msg);
            &&& after.len() == 16
            &&& to >= 16 ==> sent == Err::<(), IpcSendError>(IpcSendError::InvalidTarget)
                && after == inboxes
            &&& to < 16 && inboxes[to as int].len() >= 16 ==> sent == Err::<(), IpcSendError>(
                IpcSendError::InboxFull,
            ) && after == inboxes
            &&& to < 16 && inboxes[to as int].len() < 16 ==> {
                let inbox = after[to as int];
                &&& sent is Ok
                &&& inbox.len() == inboxes[to as int].len() + 1
                &&& inbox.drop_last() == inboxes[to as int]
                &&& inbox.last().from == sender
                &&& inbox.last().tag == msg.tag
                &&& inbox.last().payload == msg.payload
            }
        }),
{
    if to < 16 && inboxes[to as int].len() < 16 {
        assert(delivered(inboxes, sender, to, msg).0[to as int].drop_last()
            =~= inboxes[to as int]);
    }
}

/// Law: a process receives the oldest message that waits for it and keeps the rest; it receives
/// nothing that waits for another, and nothing where none waits.
pub proof fn law_the_oldest_message_is_received(
    inboxes: Seq<Seq<MessageModel>>,
    current: Pid,
    other: int,
)
    requires
        inboxes.len() == 16,
        0 <= other < 16,
        other != current,
    ensures
        ({
            let (after, got) = received(inboxes, current);
            &&& after.len() == 16
            &&& after[other] == inboxes[other]
            &&& current >= 16 ==> got is None && after == inboxes
            &&& current < 16 && inboxes[current as int].len() == 0 ==> got is None && after
                == inboxes
            &&& current < 16 && inboxes[current as int].len() > 0 ==> got == Some(
                inboxes[current as int][0],
            ) && seq![got->0] + after[current as int] == inboxes[current as int]
        }),
{
    if current < 16 && inboxes[current as int].len() > 0 {
        let (after, got) = received(inboxes, current);
        assert(seq![got->0] + after[current as int] =~= inboxes[current as int]);
    }
}

// ---------------------------------------------------------------------------
// Futexes
// ---------------------------------------------------------------------------

/// Law: user memory is what lies behind the kernel image, up to the end of the RAM; a buffer is
/// in it exactly where its first and its last byte are.
pub proof fn law_user_memory_lies_behind_the_kernel(addr: int, len: int)
    requires
        len > 0,
    ensures
        is_user_buffer(addr, len) <==> 0x4100_0000 <= addr && addr + len - 1 < 0x8000_0000,
        is_user_buffer(addr, len) <==> is_user_buffer(addr, 1) && is_user_buffer(
            addr + len - 1,
            1,
        ),
{
}

/// Law: a process waits exactly where the word in user memory still has the value it expects
/// and a slot is free: it then holds the first free slot, under the address, and is blocked.
/// Otherwise nothing changes, and the error says which of these did not hold.
pub proof fn law_a_wait_takes_the_first_free_slot(
    slots: Seq<Option<FutexWaiter>>,
    addr: u32,
    val: u32,
    word: u32,
    pid: u32,
    free: int,
)
    requires
        0 <= free <= slots.len(),
        free < slots.len() ==> slots[free] is None,
        forall|i: int| 0 <= i < free ==> #[trigger] slots[i] is Some,
    ensures
        !(0x4100_0000 <= addr <= 0x7FFF_FFFC) ==> wait_outcome(slots, addr, val, word, pid) == (
            slots,
            EINVAL,
            false,
        ),
        0x4100_0000 <= addr <= 0x7FFF_FFFC && word != val ==> wait_outcome(
            slots,
            addr,
            val,
            word,
            pid,
        ) == (slots, EAGAIN, false),
        0x4100_0000 <= addr <= 0x7FFF_FFFC && word == val && free == slots.len() ==> wait_outcome(
            slots,
            addr,
            val,
            word,
            pid,
        ) == (slots, ENOMEM, false),
        0x4100_0000 <= addr <= 0x7FFF_FFFC && word == val && free < slots.len() ==> wait_outcome(
            slots,
            addr,
            val,
            word,
            pid,
        ) == (slots.update(free, Some(FutexWaiter { addr, pid })), 0u32, true),
{
    lemma_free_slot(slots, 0, free);
}

proof fn lemma_free_slot(slots: Seq<Option<FutexWaiter>>, from: int, free: int)
    requires
        0 <= from <= free <= slots.len(),
        free < slots.len() ==> slots[free] is None,
        forall|i: int| 0 <= i < free ==> #[trigger] slots[i] is Some,
    ensures
        crate::futex::first_free(slots, from) == if free < slots.len() {
            Some(free)
        } else {
            None::<int>
        },
    decreases free - from,
{
    if from < free {
        lemma_free_slot(slots, from + 1, free);
    }
}

/// Law: the errors are negated error numbers, and the two operations are told
/// apart.
pub proof fn law_futex_numbers_are_those_of_the_interface()
    ensures
        EAGAIN + 11 == 0x1_0000_0000,
        ENOMEM + 12 == 0x1_0000_0000,
        EINVAL + 22 == 0x1_0000_0000,
        FUTEX_WAIT == 0,
        FUTEX_WAKE == 1,
{
}

/// Law: waiters on an address are woken in the order of their slots, as many as were asked for.
/// A process in a slot is among the woken, under its PID and behind those before it, exactly
/// where fewer than that wait on the address before it; its slot is then free. Every other slot
/// is kept.
pub proof fn law_waiters_are_woken_in_order(
    slots: Seq<Option<FutexWaiter>>,
    addr: u32,
    max: int,
    i: int,
)
    requires
        0 <= i < slots.len(),
        0 <= max,
    ensures
        ({
            let woken = wakened(slots, addr, max, slots.len() as int);
            let before = waiting(slots, addr, i);
            if slots[i] is Some && slots[i]->0.addr == addr && before < max {
                &&& 0 <= before < woken.len()
                &&& woken[before] == slots[i]->0.pid % 256
                &&& after_wake(slots, addr, max)[i] is None
            } else {
                after_wake(slots, addr, max)[i] == slots[i]
            }
        }),
        waiting(slots, addr, i + 1) == waiting(slots, addr, i) + if slots[i] is Some
            && slots[i]->0.addr == addr {
            1int
        } else {
            0
        },
        waiting(slots, addr, 0) == 0,
{
    crate::futex::law_wake_count(slots, addr, max, i);
    if slots[i] is Some && slots[i]->0.addr == addr && waiting(slots, addr, i) < max {
        lemma_woken_stays(slots, addr, max, i + 1, slots.len() as int);
    }
}

proof fn lemma_woken_stays(slots: Seq<Option<FutexWaiter>>, addr: u32, max: int, n: int, m: int)
    requires
        0 <= n <= m <= slots.len(),
    ensures
        wakened(slots, addr, max, n).len() <= wakened(slots, addr, max, m).len(),
        forall|k: int|
            0 <= k < wakened(slots, addr, max, n).len() ==> #[trigger] wakened(
                slots,
                addr,
                max,
                m,
            )[k] == wakened(slots, addr, max, n)[k],
    decreases m - n,
{
    if n < m {
        lemma_woken_stays(slots, addr, max, n, m - 1);
    }
}

/// Law: where a process ends, exactly its slots become free.
pub proof fn law_an_ended_process_waits_no_more(
    slots: Seq<Option<FutexWaiter>>,
    pid: u32,
    i: int,
)
    requires
        0 <= i < slots.len(),
    ensures
        without_pid(slots, pid).len() == slots.len(),
        slots[i] is Some && slots[i]->0.pid == pid ==> without_pid(slots, pid)[i] is None,
        !(slots[i] is Some && slots[i]->0.pid == pid) ==> without_pid(slots, pid)[i] == slots[i],
{
}

// ---------------------------------------------------------------------------
// Interrupts
// ---------------------------------------------------------------------------

/// Law: entering a critical section masks interrupts and remembers whether they were on;
/// leaving it turns them on again exactly where they were.
pub proof fn law_leaving_restores_what_was(enabled: bool)
    ensures
        !entered(enabled).1,
        left(entered(enabled).0, entered(enabled).1) == enabled,
{
}

/// Law: the controller has thirty-two lines for each step of its type, and at most 256 of them
/// are used.
pub proof fn law_lines_come_in_groups(typer: u32)
    ensures
        32 <= irq_lines(typer) <= 256,
        irq_lines(typer) % 32 == 0,
        typer % 32 < 8 ==> irq_lines(typer) == 32 * (typer % 32) + 32,
        typer % 32 >= 8 ==> irq_lines(typer) == 256,
{
}

/// Law: every group of lines is disabled and has its pending interrupts cleared, register by
/// register.
pub proof fn law_every_line_is_cleared(regs: int, i: int)
    requires
        0 <= i < regs <= 8,
    ensures
        clear_writes(regs).len() == 2 * regs,
        clear_writes(regs)[2 * i] == (RegisterWrite {
            addr: (0x0C00_0180 + 4 * i) as usize,
            value: 0xFFFF_FFFF,
        }),
        clear_writes(regs)[2 * i + 1] == (RegisterWrite {
            addr: (0x0C00_0280 + 4 * i) as usize,
            value: 0xFFFF_FFFF,
        }),
    decreases regs,
{
    if i < regs - 1 {
        law_every_line_is_cleared(regs - 1, i);
    } else if regs > 1 {
        law_every_line_is_cleared(regs - 1, 0);
    } else {
        assert(clear_writes(0).len() == 0);
    }
}

/// Law: every line gets the same middle priority, and every shared line goes to the first
/// processor; the first thirty-two lines have no target.
pub proof fn law_lines_get_priority_and_target(regs: int, i: int)
    requires
        8 <= regs <= 64,
        0 <= i < regs,
    ensures
        priority_writes(regs).len() == regs,
        priority_writes(regs)[i] == (RegisterWrite {
            addr: (0x0C00_0400 + 4 * i) as usize,
            value: 0xA0A0_A0A0,
        }),
        target_writes(regs).len() == regs - 8,
        i >= 8 ==> target_writes(regs)[i - 8] == (RegisterWrite {
            addr: (0x0C00_0800 + 4 * i) as usize,
            value: 0x0101_0101,
        }),
{
}

/// Law: at the end the distributor is turned on, then every priority is let through, then the
/// CPU interface is turned on.
pub proof fn law_the_controller_is_turned_on_last(addr: int, value: u32)
    ensures
        enable_writes().len() == 3,
        enable_writes()[0] == (RegisterWrite { addr: 0x0C00_0000, value: 1 }),
        enable_writes()[1] == (RegisterWrite { addr: 0x0C00_2004, value: 0xFF }),
        enable_writes()[2] == (RegisterWrite { addr: 0x0C00_2000, value: 1 }),
        0 <= addr <= u32::MAX ==> put(addr, value).addr == addr && put(addr, value).value == value,
{
}

// ---------------------------------------------------------------------------
// The board
// ---------------------------------------------------------------------------

/// Law: the memory of the board has one gibibyte; the kernel is loaded half a mebibyte into it
/// and has to end sixteen mebibytes into it, and programs are mapped into user memory.
pub proof fn law_memory_is_laid_out_without_overlap()
    ensures
        RAM_START == 0x4000_0000,
        RAM_END == RAM_START + 1024 * 1024 * 1024,
        KERNEL_LOAD == RAM_START + 512 * 1024,
        KERNEL_END == RAM_START + 16 * 1024 * 1024,
        USER_TEXT_BASE == RAM_START + 256 * 1024 * 1024,
        is_user_buffer(USER_TEXT_BASE as int, 1),
{
}

/// Law: the userdata partition begins at 640 mebibytes and has three gibibytes of sectors of
/// 512 bytes, the first of them for the secrets preamble.
pub proof fn law_the_userdata_partition_has_its_place()
    ensures
        LFS_PARTITION_START * 512 == 640 * 1024 * 1024,
        LFS_PARTITION_SIZE * 512 == 3 * 1024 * 1024 * 1024,
        LFS_PREAMBLE_SECTORS == 1,
{
}

/// Law: the display has 240 by 320 pixels.
pub proof fn law_the_display_stands_upright()
    ensures
        DISPLAY_WIDTH * 4 == DISPLAY_HEIGHT * 3,
        DISPLAY_WIDTH * DISPLAY_HEIGHT == 76_800,
{
}

} // verus!
