use vstd::prelude::*;

use crate::address::{PhysPageNum, VirtAddr, VirtPageNum, VPN_MASK};
use crate::config::{MAX_APP_NUM, MAX_SYSCALL_NUM, PAGE_SIZE};
use crate::frame_allocator::{within, StackFrameAllocator};
use crate::memory_set::{
    find_start_idx, lemma_find_at, lemma_ms_frame_retype, lemma_ms_untouched, LoadError,
    MapPermission, MemorySet, MAP_PERM_R, MAP_PERM_W,
};
use crate::page_table::{spec_translate, PagingError};
use crate::phys_mem::PhysMemory;
use crate::trap_context::TrapContext;

verus! {

/// The saved kernel-side execution context of a task: where it resumes,
/// its kernel stack pointer and the callee-saved registers.
#[derive(Clone, Copy, Debug)]
pub struct TaskContext {
    /// Resume address.
    pub ra: u64,
    /// Kernel stack pointer.
    pub sp: u64,
    /// Callee-saved registers s0 through s11.
    pub s: [u64; 12],
}

impl TaskContext {
    /// The all-zero context, used before a task first runs and as the
    /// throwaway save slot of the very first switch.
    pub fn zero_init() -> (r: TaskContext)
        ensures
            r.ra == 0,
            r.sp == 0,
            forall|i: int| 0 <= i < 12 ==> r.s@[i] == 0,
    {
        TaskContext { ra: 0, sp: 0, s: [0; 12] }
    }

    /// The initial context of a task: it resumes at the kernel's
    /// return-to-user entry with its kernel stack.
    pub fn goto_trap_return(trap_return: u64, kstack_ptr: u64) -> (r: TaskContext)
        ensures
            r.ra == trap_return,
            r.sp == kstack_ptr,
            forall|i: int| 0 <= i < 12 ==> r.s@[i] == 0,
    {
        TaskContext { ra: trap_return, sp: kstack_ptr, s: [0; 12] }
    }
}

/// Where a task stands in its life: created, runnable, on the core, or
/// finished for good.
#[derive(Clone, Copy, Debug, PartialEq, Eq, Structural)]
pub enum TaskStatus {
    /// Created but not yet set up.
    UnInit,
    /// Ready to run.
    Ready,
    /// Currently on the core.
    Running,
    /// Terminated; never runs again.
    Exited,
}

/// Everything the kernel keeps about one task: its status, its saved
/// kernel context, its address space, where its trap context sits, its
/// heap bookkeeping and its accounting counters.
pub struct TaskControlBlock {
    /// Where the task stands in its life.
    pub task_status: TaskStatus,
    /// The saved kernel-side context.
    pub task_cx: TaskContext,
    /// The task's address space.
    pub memory_set: MemorySet,
    /// Physical page holding the task's trap context.
    pub trap_cx_ppn: PhysPageNum,
    /// Bytes from address zero to the top of the user stack.
    pub base_size: u64,
    /// Lowest address the heap may shrink to.
    pub heap_bottom: u64,
    /// Current program break.
    pub program_brk: u64,
    /// Milliseconds the kernel spent working for the task.
    pub kernel_time: u64,
    /// Milliseconds spent in user mode.
    pub user_time: u64,
    /// How often each syscall id was invoked, indexed by id.
    pub syscall_info: Vec<u64>,
}

/// The virtual address the kernel stack of task `app_id` ends at, as the
/// kernel space maps it.
pub open spec fn kernel_stack_top_va(app_id: int) -> int {
    crate::config::TRAMPOLINE - app_id * (crate::config::KERNEL_STACK_SIZE + PAGE_SIZE)
        - 0xffff_ff80_0000_0000
}

/// The virtual address the kernel stack of task `app_id` starts at.
pub open spec fn kernel_stack_bottom_va(app_id: int) -> int {
    kernel_stack_top_va(app_id) - crate::config::KERNEL_STACK_SIZE
}

impl TaskControlBlock {
    /// The control block is intact in `mem`: the address space is intact,
    /// the trap-context page holds a trap context, the syscall counters
    /// cover every recorded id, and the heap region matches the break
    /// bookkeeping, with nothing else between the heap and the trap page.
    pub open spec fn wf(&self, mem: &PhysMemory) -> bool {
        let areas = self.memory_set.areas@;
        let hp = (self.heap_bottom / PAGE_SIZE) as int;
        &&& self.memory_set.wf(mem)
        &&& mem.is_trap(self.trap_cx_ppn.0)
        &&& areas.len() >= 1
        &&& areas.last().vpn_range.start_val() == VPN_MASK - 1
        &&& areas.last().vpn_range.end_val() == VPN_MASK
        &&& areas.last().map_type is Framed
        &&& areas.last().data_frames@.len() == 1
        &&& areas.last().data_frames@[0].ppn.0 == self.trap_cx_ppn.0
        &&& self.syscall_info@.len() == MAX_SYSCALL_NUM
        &&& self.heap_bottom % PAGE_SIZE == 0
        &&& self.heap_bottom <= self.program_brk
        &&& self.program_brk <= (VPN_MASK - 2) * PAGE_SIZE
        &&& find_start_idx(areas, hp, 0) matches Some(hi) && {
            &&& areas[hi].map_type is Framed
            &&& areas[hi].vpn_range.end_val() == (self.program_brk + PAGE_SIZE - 1) / (
            PAGE_SIZE as int)
            &&& forall|j: int|
                0 <= j < areas.len() && j != hi ==> (#[trigger] areas[j]).vpn_range.start_val()
                    != hp && (areas[j].vpn_range.end_val() <= hp
                    || areas[j].vpn_range.start_val() >= VPN_MASK - 1)
        }
    }

    /// The token naming the task's address space.
    pub fn get_user_token(&self, mem: &PhysMemory) -> (r: u64)
        ensures
            r == self.memory_set.page_table.spec_token(),
    {
        self.memory_set.token()
    }

    /// Reads the task's saved trap context.
    pub fn get_trap_cx(&self, mem: &PhysMemory) -> (r: TrapContext)
        requires
            mem.wf(),
            self.wf(mem),
        ensures
            r == mem.trap_cx(self.trap_cx_ppn.0),
    {
        mem.read_trap_cx(self.trap_cx_ppn.0)
    }

    /// Overwrites the task's saved trap context.
    pub fn set_trap_cx(&self, mem: &mut PhysMemory, cx: TrapContext)
        requires
            old(mem).wf(),
            self.wf(old(mem)),
        ensures
            final(mem).wf(),
            self.wf(final(mem)),
            final(mem).base == old(mem).base,
            final(mem).pages@.len() == old(mem).pages@.len(),
            final(mem).trap_cx(self.trap_cx_ppn.0) == cx,
            final(mem).agrees_except(&*old(mem), set![self.trap_cx_ppn.0]),
    {
        let ghost m1 = *old(mem);
        mem.write_trap_cx(self.trap_cx_ppn.0, cx);
        proof {
            lemma_ms_frame_retype(self.memory_set, m1, *mem, self.trap_cx_ppn.0);
        }
    }

    /// Builds one task from its program image: its address space, the
    /// kernel-stack region reserved for it inside the kernel space, its
    /// initial trap context on its trap-context page, and its bookkeeping,
    /// with status `Ready`.
    #[verifier::rlimit(80)]
    pub fn new(
        allocator: &mut StackFrameAllocator,
        mem: &mut PhysMemory,
        kernel_space: &mut MemorySet,
        elf_data: &[u8],
        app_id: usize,
        strampoline: PhysPageNum,
        trap_handler_addr: u64,
        trap_return_addr: u64,
        sstatus: u64,
    ) -> (r: Result<TaskControlBlock, LoadError>)
        requires
            old(mem).wf(),
            old(allocator)@.wf(),
            within(old(allocator)@, old(mem)),
            old(kernel_space).wf(old(mem)),
            strampoline.0 <= crate::address::PPN_MASK,
            app_id < MAX_APP_NUM,
            forall|q: u64|
                old(kernel_space).owns_page(q) ==> old(allocator)@.live().contains(q),
            forall|i: int|
                0 <= i < old(kernel_space).areas@.len() ==> (#[trigger] old(
                    kernel_space,
                ).areas@[i]).vpn_range.end_val() <= (crate::config::TRAMPOLINE - (app_id + 1) * (
                crate::config::KERNEL_STACK_SIZE + PAGE_SIZE) + crate::config::PAGE_SIZE
                    - 0xffff_ff80_0000_0000int) / (PAGE_SIZE as int),
        ensures
            final(mem).wf(),
            final(allocator)@.wf(),
            within(final(allocator)@, final(mem)),
            final(mem).base == old(mem).base,
            final(mem).pages@.len() == old(mem).pages@.len(),
            final(kernel_space).wf(final(mem)),
            final(kernel_space).page_table.root_ppn == old(kernel_space).page_table.root_ppn,
            forall|q: u64|
                old(kernel_space).owns_page(q) ==> #[trigger] final(kernel_space).owns_page(q),
            forall|q: u64|
                #[trigger] final(kernel_space).owns_page(q) ==> final(allocator)@.live().contains(
                    q,
                ),
            forall|q: u64|
                old(allocator)@.live().contains(q) ==> #[trigger] final(allocator)@.live().contains(
                    q,
                ),
            r == Err::<TaskControlBlock, LoadError>(LoadError::BadImage)
                <==> !crate::elf::image_ok(elf_data@),
            crate::elf::image_ok(elf_data@) && old(allocator)@.free_count()
                >= crate::elf::image_frames_needed(elf_data@) + 6 ==> r is Ok,
            r matches Ok(tcb) ==> {
                &&& tcb.wf(final(mem))
                &&& tcb.task_status == TaskStatus::Ready
                &&& tcb.task_cx.ra == trap_return_addr
                &&& tcb.task_cx.sp == kernel_stack_top_va(app_id as int)
                &&& tcb.base_size == tcb.heap_bottom
                &&& tcb.heap_bottom == tcb.program_brk
                &&& tcb.heap_bottom == (crate::elf::image_end_page(elf_data@) + 1
                    + crate::config::USER_STACK_SIZE / PAGE_SIZE) * PAGE_SIZE
                &&& tcb.kernel_time == 0
                &&& tcb.user_time == 0
                &&& forall|i: int| 0 <= i < MAX_SYSCALL_NUM ==> tcb.syscall_info@[i] == 0
                &&& ({
                    let cx = final(mem).trap_cx(tcb.trap_cx_ppn.0);
                    &&& cx.sepc == crate::elf::le64(elf_data@, 24)
                    &&& cx.x@[crate::trap_context::REG_SP as int] == tcb.heap_bottom
                    &&& cx.kernel_satp == final(kernel_space).page_table.spec_token()
                    &&& cx.kernel_sp == kernel_stack_top_va(app_id as int)
                    &&& cx.trap_handler == trap_handler_addr
                })
                &&& final(kernel_space).areas@.len() == old(kernel_space).areas@.len() + 1
                &&& (forall|i: int|
                    0 <= i < old(kernel_space).areas@.len() ==> final(kernel_space).areas@[i]
                        == old(kernel_space).areas@[i])
                &&& final(kernel_space).areas@.last().map_type is Framed
                &&& final(kernel_space).areas@.last().map_perm.bits == (MAP_PERM_R | MAP_PERM_W)
                &&& final(kernel_space).areas@.last().vpn_range.start_val()
                    == kernel_stack_bottom_va(app_id as int) / (PAGE_SIZE as int)
                &&& final(kernel_space).areas@.last().vpn_range.end_val() == (kernel_stack_top_va(
                    app_id as int,
                ) + PAGE_SIZE - 1) / (PAGE_SIZE as int)
                &&& forall|q: u64|
                    #[trigger] tcb.memory_set.owns_page(q) ==> final(allocator)@.live().contains(
                        q,
                    ) && !old(allocator)@.live().contains(q)
            },
    {
        let ghost m0 = *old(mem);
        let ghost a0 = old(allocator)@;
        let ghost ks0 = *old(kernel_space);
        let parts = match MemorySet::from_elf(allocator, mem, elf_data, strampoline) {
            Err(e) => {
                proof {
                    lemma_ms_untouched(ks0, m0, *mem);
                }
                return Err(e);
            },
            Ok(t) => t,
        };
        let mut memory_set = parts.0;
        let user_sp = parts.1;
        let entry_point = parts.2;
        proof {
            lemma_ms_untouched(ks0, m0, *mem);
        }
        let trap_cx_ppn = match memory_set.translate(mem, VirtPageNum(VPN_MASK - 1)) {
            None => {
                proof {
                    assert(false);
                }
                return Err(LoadError::BadImage);
            },
            Some(pte) => pte.ppn(),
        };
        proof {
            let n1 = memory_set.areas@.len() - 1;
            assert(memory_set.covers((VPN_MASK - 1) as u64));
            let i = choose|i: int|
                0 <= i < memory_set.areas@.len() && (#[trigger] memory_set.areas@[i]).contains(
                    (VPN_MASK - 1) as u64,
                );
            assert(i == n1) by {
                if i != n1 {
                    assert(memory_set.areas@[n1].contains((VPN_MASK - 1) as u64));
                    assert(false);
                }
            }
            assert(memory_set.areas@[n1].mapped(mem, memory_set.page_table.root_ppn.0));
            assert(memory_set.areas@[n1].contains((VPN_MASK - 1) as u64));
            assert(spec_translate(mem, memory_set.page_table.root_ppn.0, (VPN_MASK - 1) as u64)
                == Some(memory_set.areas@[n1].entry_for((VPN_MASK - 1) as u64)));
            assert(memory_set.areas@[n1].area_wf());
            assert(memory_set.areas@[n1].data_frames@.len() == 1);
            crate::page_table::lemma_entry_decode(
                memory_set.areas@[n1].data_frames@[0].ppn.0,
                (memory_set.areas@[n1].map_perm.bits | crate::page_table::PTE_V) as u8,
            );
            assert(memory_set.areas@[n1].data_frames@[0].ppn.0 == trap_cx_ppn.0);
            assert(memory_set.frames_contain(trap_cx_ppn.0));
        }
        let pos = kernel_stack_pair(app_id);
        let kernel_stack_bottom = pos.0 - 0xffff_ff80_0000_0000;
        let kernel_stack_top = pos.1 - 0xffff_ff80_0000_0000;
        proof {
            let q = 0x7ffffffint - 3 * app_id - 2;
            assert(kernel_stack_bottom == 4096 * q);
            assert(kernel_stack_top == 4096 * (q + 2));
            vstd::arithmetic::div_mod::lemma_div_multiples_vanish(q, 4096);
            vstd::arithmetic::div_mod::lemma_div_multiples_vanish(q + 2, 4096);
            assert(kernel_stack_bottom / PAGE_SIZE == q);
            assert(kernel_stack_top / PAGE_SIZE == q + 2);
            assert((kernel_stack_top + PAGE_SIZE - 1) / (PAGE_SIZE as int) == q + 2) by {
                vstd::arithmetic::div_mod::lemma_fundamental_div_mod_converse(
                    kernel_stack_top + 4095,
                    4096,
                    q + 2,
                    4095,
                );
            }
        }
        let ghost ms_1 = memory_set;
        let ghost m_1 = *mem;
        let ghost a_1 = allocator@;
        let res = kernel_space.insert_framed_area(
            allocator,
            mem,
            VirtAddr(kernel_stack_bottom),
            VirtAddr(kernel_stack_top),
            MapPermission::new(MAP_PERM_R | MAP_PERM_W),
        );
        proof {
            assert forall|q: u64|
                ms_1.owns_page(q) implies #[trigger] mem.page(q) == m_1.page(q) by {
                assert(a_1.live().contains(q));
            }
            lemma_ms_untouched(ms_1, m_1, *mem);
        }
        match res {
            Err(_) => {
                return Err(LoadError::OutOfFrames);
            },
            Ok(()) => {},
        }
        let kernel_token = kernel_space.token();
        let cx = TrapContext::app_init_context(
            entry_point,
            user_sp,
            kernel_token,
            kernel_stack_top,
            trap_handler_addr,
            sstatus,
        );
        let ghost ms_2 = memory_set;
        let ghost m_2 = *mem;
        mem.write_trap_cx(trap_cx_ppn.0, cx);
        proof {
            lemma_ms_frame_retype(ms_2, m_2, *mem, trap_cx_ppn.0);
            assert(kernel_space.owns_page(trap_cx_ppn.0) == false) by {
                if kernel_space.owns_page(trap_cx_ppn.0) {
                    assert(ms_1.owns_page(trap_cx_ppn.0));
                    assert(a_1.live().contains(trap_cx_ppn.0));
                    assert(ks0.owns_page(trap_cx_ppn.0));
                    assert(a0.live().contains(trap_cx_ppn.0));
                    assert(!a0.live().contains(trap_cx_ppn.0));
                }
            }
            assert forall|q: u64|
                kernel_space.owns_page(q) implies #[trigger] mem.page(q) == m_2.page(q) by {
                assert(q != trap_cx_ppn.0) by {
                    if q == trap_cx_ppn.0 {
                        assert(ms_2.owns_page(q));
                        assert(!a_1.live().contains(q) && !a0.live().contains(q));
                        assert(ks0.owns_page(q) || !a_1.live().contains(q));
                    }
                }
            }
            lemma_ms_untouched(*kernel_space, m_2, *mem);
        }
        let tcb = TaskControlBlock {
            task_status: TaskStatus::Ready,
            task_cx: TaskContext::goto_trap_return(trap_return_addr, kernel_stack_top),
            memory_set,
            trap_cx_ppn,
            base_size: user_sp,
            heap_bottom: user_sp,
            program_brk: user_sp,
            kernel_time: 0,
            user_time: 0,
            syscall_info: zero_counters(),
        };
        proof {
            assert(tcb.wf(mem)) by {
                assert(tcb.memory_set.wf(mem));
                assert((user_sp / PAGE_SIZE) * PAGE_SIZE == user_sp) by {
                    assert(user_sp % PAGE_SIZE == 0);
                    vstd::arithmetic::div_mod::lemma_fundamental_div_mod(
                        user_sp as int,
                        PAGE_SIZE as int,
                    );
                }
                assert((user_sp + PAGE_SIZE - 1) / (PAGE_SIZE as int) == user_sp / PAGE_SIZE) by {
                    crate::address::lemma_floor_ceil(crate::address::VirtAddr(user_sp));
                }
            }
        }
        Ok(tcb)
    }

    /// Moves the program break by `size` bytes: grows or shrinks the heap
    /// region accordingly and returns the previous break, or `None`,
    /// changing nothing, when the new break would fall below the heap
    /// bottom or run into the trap-context page.
    pub fn change_program_brk(
        &mut self,
        allocator: &mut StackFrameAllocator,
        mem: &mut PhysMemory,
        size: i32,
    ) -> (r: Result<Option<u64>, PagingError>)
        requires
            old(mem).wf(),
            old(allocator)@.wf(),
            within(old(allocator)@, old(mem)),
            old(self).wf(old(mem)),
            forall|q: u64|
                old(self).memory_set.owns_page(q) ==> old(allocator)@.live().contains(q),
        ensures
            final(mem).wf(),
            final(allocator)@.wf(),
            within(final(allocator)@, final(mem)),
            final(mem).base == old(mem).base,
            final(mem).pages@.len() == old(mem).pages@.len(),
            r is Ok ==> final(self).wf(final(mem)),
            final(self).memory_set.wf(final(mem)),
            final(self).heap_bottom == old(self).heap_bottom,
            final(self).task_status == old(self).task_status,
            final(self).trap_cx_ppn == old(self).trap_cx_ppn,
            final(self).memory_set.page_table.root_ppn == old(
                self,
            ).memory_set.page_table.root_ppn,
            forall|q: u64|
                #[trigger] final(self).memory_set.owns_page(q) ==> final(allocator)@.live().contains(
                    q,
                ),
            r == Ok::<Option<u64>, PagingError>(None) <==> (old(self).program_brk + size
                < old(self).heap_bottom || old(self).program_brk + size > (VPN_MASK - 2)
                * PAGE_SIZE),
            r == Ok::<Option<u64>, PagingError>(None) ==> *final(self) == *old(self) && *final(mem)
                == *old(mem) && final(allocator)@ == old(allocator)@,
            r matches Ok(o) ==> (o is Some ==> o->Some_0 == old(self).program_brk
                && final(self).program_brk == old(self).program_brk + size),
            size <= 0 && old(self).program_brk + size >= old(self).heap_bottom ==> r == Ok::<
                Option<u64>,
                PagingError,
            >(Some(old(self).program_brk)),
            old(self).heap_bottom <= old(self).program_brk + size <= (VPN_MASK - 2) * PAGE_SIZE
                && old(allocator)@.free_count() >= 3 * ((old(self).program_brk + size + PAGE_SIZE
                - 1) / (PAGE_SIZE as int)) - 3 * (old(self).heap_bottom / PAGE_SIZE) ==> r
                is Ok,
            r is Err ==> r == Err::<Option<u64>, PagingError>(PagingError::OutOfFrames),
    {
        let ghost tcb0 = *old(self);
        let ghost m0 = *old(mem);
        let ghost a0 = old(allocator)@;
        let old_brk = self.program_brk;
        let heap_bottom = self.heap_bottom;
        let new_brk_i = old_brk as i64 + size as i64;
        if new_brk_i < heap_bottom as i64 {
            return Ok(None);
        }
        let new_brk = new_brk_i as u64;
        if new_brk > (VPN_MASK - 2) * PAGE_SIZE {
            return Ok(None);
        }
        let ghost hp = (heap_bottom / PAGE_SIZE) as int;
        let ghost hi = find_start_idx(tcb0.memory_set.areas@, hp, 0)->Some_0;
        proof {
            crate::memory_set::lemma_find_start_idx(tcb0.memory_set.areas@, hp, 0);
            assert(tcb0.memory_set.areas@[hi].vpn_range.start_val() == hp);
            assert((new_brk + PAGE_SIZE - 1) / (PAGE_SIZE as int) <= VPN_MASK - 2 + 1) by {
                vstd::arithmetic::div_mod::lemma_div_is_ordered(
                    new_brk as int + PAGE_SIZE - 1,
                    ((VPN_MASK - 2) * PAGE_SIZE + PAGE_SIZE - 1) as int,
                    PAGE_SIZE as int,
                );
            }
            assert(heap_bottom / PAGE_SIZE <= (new_brk + PAGE_SIZE - 1) / (PAGE_SIZE as int)) by {
                vstd::arithmetic::div_mod::lemma_div_is_ordered(
                    heap_bottom as int,
                    new_brk + PAGE_SIZE - 1,
                    PAGE_SIZE as int,
                );
                assert((heap_bottom + PAGE_SIZE - 1) / (PAGE_SIZE as int) == heap_bottom
                    / PAGE_SIZE) by {
                    crate::address::lemma_floor_ceil(crate::address::VirtAddr(heap_bottom));
                }
            }
        }
        let found: bool;
        if size <= 0 {
            proof {
                vstd::arithmetic::div_mod::lemma_div_is_ordered(
                    new_brk + PAGE_SIZE - 1,
                    old_brk + PAGE_SIZE - 1,
                    PAGE_SIZE as int,
                );
            }
            found = self.memory_set.shrink_to(
                allocator,
                mem,
                VirtAddr(heap_bottom),
                VirtAddr(new_brk),
            );
        } else {
            proof {
                vstd::arithmetic::div_mod::lemma_div_is_ordered(
                    old_brk + PAGE_SIZE - 1,
                    new_brk + PAGE_SIZE - 1,
                    PAGE_SIZE as int,
                );
            }
            match self.memory_set.append_to(
                allocator,
                mem,
                VirtAddr(heap_bottom),
                VirtAddr(new_brk),
            ) {
                Err(_) => {
                    return Err(PagingError::OutOfFrames);
                },
                Ok(b) => {
                    found = b;
                },
            }
        }
        proof {
            assert(found);
        }
        self.program_brk = new_brk;
        proof {
            let areas = self.memory_set.areas@;
            assert(areas[hi].vpn_range.start_val() == hp);
            assert forall|j: int| 0 <= j < hi implies (#[trigger] areas[j]).vpn_range.start_val()
                != hp by {
                assert(areas[j] == tcb0.memory_set.areas@[j]);
            }
            lemma_find_at(areas, hp, hi);
            assert(hi != self.memory_set.areas@.len() - 1) by {
                assert(tcb0.memory_set.areas@.last().vpn_range.start_val() == VPN_MASK - 1);
                assert(hp < VPN_MASK - 1);
            }
            assert(self.memory_set.areas@.last() == tcb0.memory_set.areas@.last());
            assert(mem.is_trap(self.trap_cx_ppn.0)) by {
                assert(tcb0.memory_set.frames_contain(self.trap_cx_ppn.0)) by {
                    assert(tcb0.memory_set.areas@.last().data_frames@[0].ppn.0
                        == self.trap_cx_ppn.0);
                }
                if size <= 0 {
                    assert(!self.memory_set.page_table.owned().contains(self.trap_cx_ppn.0)) by {
                        let n1 = tcb0.memory_set.areas@.len() - 1;
                        assert(tcb0.memory_set.areas@[n1].data_frames@[0].ppn.0
                            == self.trap_cx_ppn.0);
                    }
                    assert(mem.page(self.trap_cx_ppn.0) == m0.page(self.trap_cx_ppn.0));
                } else {
                    assert(mem.page(self.trap_cx_ppn.0) == m0.page(self.trap_cx_ppn.0));
                }
            }
            assert forall|j: int|
                0 <= j < self.memory_set.areas@.len() && j != hi implies (
            #[trigger] self.memory_set.areas@[j]).vpn_range.start_val() != hp && (
            self.memory_set.areas@[j].vpn_range.end_val() <= hp
                || self.memory_set.areas@[j].vpn_range.start_val() >= VPN_MASK - 1) by {
                assert(self.memory_set.areas@[j] == tcb0.memory_set.areas@[j]);
            }
            assert(self.wf(mem));
        }
        Ok(Some(old_brk))
    }
}

/// A fresh bank of per-syscall counters, one per recorded id, all zero.
fn zero_counters() -> (v: Vec<u64>)
    ensures
        v@.len() == MAX_SYSCALL_NUM,
        forall|i: int| 0 <= i < MAX_SYSCALL_NUM ==> v@[i] == 0,
{
    let mut v: Vec<u64> = Vec::new();
    let mut i: usize = 0;
    while i < MAX_SYSCALL_NUM
        invariant
            i <= MAX_SYSCALL_NUM,
            v@.len() == i,
            forall|k: int| 0 <= k < i ==> v@[k] == 0,
        decreases MAX_SYSCALL_NUM - i,
    {
        v.push(0);
        i = i + 1;
    }
    v
}

/// The masked kernel-stack bounds of one task, as virtual addresses the
/// kernel space can map.
fn kernel_stack_pair(app_id: usize) -> (r: (u64, u64))
    requires
        app_id < MAX_APP_NUM,
    ensures
        r.1 == crate::config::TRAMPOLINE - app_id * (crate::config::KERNEL_STACK_SIZE + PAGE_SIZE),
        r.0 == r.1 - crate::config::KERNEL_STACK_SIZE,
{
    crate::config::kernel_stack_position(app_id)
}

} // verus!
