//! A single-core micro-kernel for a paged RISC-V-class machine, modeled
//! and verified end to end: typed physical memory, the three-level page
//! table, the frame allocator, address spaces built from program images,
//! task control blocks with heap growth, the round-robin scheduler and
//! the trap dispatch state machine.  A thin unverified harness around
//! this crate performs the hardware work the outcomes of these functions
//! name.

pub mod address;
pub mod config;
pub mod elf;
pub mod frame_allocator;
pub mod kernel;
pub mod memory_set;
pub mod page_table;
pub mod phys_mem;
pub mod sync;
pub mod syscall;
pub mod task;
pub mod task_manager;
pub mod timer;
pub mod trap;
pub mod trap_context;

pub use address::{
    PhysAddr, PhysPageNum, SimpleRange, SimpleRangeIterator, StepByOne, VPNRange, VirtAddr,
    VirtPageNum,
};
pub use config::kernel_stack_position;
pub use elf::{AppImage, Segment};
pub use frame_allocator::{AllocView, FrameDeallocError, FrameTracker, StackFrameAllocator};
pub use kernel::{init, Kernel};
pub use memory_set::{LoadError, MapArea, MapPermission, MapType, MemorySet};
pub use page_table::{
    read_buffer, translated_byte_buffer, write_buffer, ByteSegment, PTEFlags, PageTable,
    PageTableEntry, PagingError,
};
pub use phys_mem::{PageFrame, PageModel, PhysMemory};
pub use sync::UPSafeCell;
pub use syscall::{
    sys_get_time, sys_task_info, sys_write, sys_yield, syscall, write_user_buffer, SyscallOutcome,
    TaskInfo,
};
pub use task::{TaskContext, TaskControlBlock, TaskStatus};
pub use task_manager::TaskManager;
pub use timer::{get_time_ms, set_next_trigger};
pub use trap::{trap_handler, TrapCause, TrapControl, TrapOutcome};
pub use trap_context::TrapContext;
