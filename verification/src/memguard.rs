//! Which addresses belong to user programs.
use crate::board::{KERNEL_END, RAM_END};
use vstd::prelude::*;

verus! {

/// Whether a buffer lies within user-accessible memory: behind the kernel image
/// and in front of the end of RAM. Null, kernel and device addresses do not.
pub open spec fn is_user_buffer(addr: int, len: int) -> bool {
    KERNEL_END <= addr && addr + len <= RAM_END
}

/// Whether a buffer lies within user-accessible memory.
pub fn validate_user_buffer(addr: usize, len: usize) -> (r: bool)
    ensures
        r == is_user_buffer(addr as int, len as int),
{
    KERNEL_END <= addr && addr <= RAM_END && len <= RAM_END - addr
}

/// Law: no part of a user buffer lies in the kernel image, at null or behind RAM.
pub proof fn law_user_buffers_exclude_the_kernel(addr: int, len: int, at: int)
    requires
        is_user_buffer(addr, len),
        addr <= at < addr + len,
    ensures
        at >= KERNEL_END,
        at < RAM_END,
        at != 0,
{
}

} // verus!
