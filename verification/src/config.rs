use vstd::prelude::*;

verus! {

/// Size of one page of physical or virtual memory, in bytes.
pub const PAGE_SIZE: u64 = 0x1000;
/// Number of low bits of an address that form the page offset.
pub const PAGE_SIZE_BITS: u64 = 12;

/// Number of entries in one page-table node.
pub const ENTRIES_PER_TABLE: usize = 512;
/// Size of one page as a count of bytes held in memory.
pub const PAGE_BYTES: usize = 4096;

/// Size of each task's user-mode stack, in bytes.
pub const USER_STACK_SIZE: u64 = 4096 * 2;
/// Size of each task's kernel-mode stack, in bytes.
pub const KERNEL_STACK_SIZE: u64 = 4096 * 2;

/// Highest virtual page: the trampoline page, mapped identically in the
/// kernel space and in every task space.
pub const TRAMPOLINE: u64 = u64::MAX - PAGE_SIZE + 1;
/// Virtual address of the page holding a task's trap context, directly
/// below the trampoline.
pub const TRAP_CONTEXT: u64 = TRAMPOLINE - PAGE_SIZE;

/// Upper bound on the number of embedded applications.
pub const MAX_APP_NUM: usize = 16;
/// One more than the largest syscall id that per-task counters record.
pub const MAX_SYSCALL_NUM: usize = 520;

/// Timer frequency of the platform, in ticks per second.
pub const CLOCK_FREQ: u64 = 12500000;
/// End of usable physical memory.
pub const MEMORY_END: u64 = 0x8800_0000;

/// Returns the lower and upper bound of the kernel-mode stack reserved for
/// one task inside the kernel address space.  Stacks hang below the
/// trampoline, each separated from the next by one unmapped guard page.
pub fn kernel_stack_position(app_id: usize) -> (r: (u64, u64))
    requires
        app_id < MAX_APP_NUM,
    ensures
        r.1 == TRAMPOLINE - app_id * (KERNEL_STACK_SIZE + PAGE_SIZE),
        r.0 == r.1 - KERNEL_STACK_SIZE,
        r.0 < r.1,
{
    let top = TRAMPOLINE - (app_id as u64) * (KERNEL_STACK_SIZE + PAGE_SIZE);
    let bottom = top - KERNEL_STACK_SIZE;
    (bottom, top)
}

} // verus!
