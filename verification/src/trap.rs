use vstd::prelude::*;

use crate::config::{CLOCK_FREQ, MAX_SYSCALL_NUM};
use crate::frame_allocator::{within, StackFrameAllocator};
use crate::phys_mem::PhysMemory;
use crate::syscall::{syscall, SyscallOutcome};
use crate::task_manager::TaskManager;
use crate::trap_context::{REG_A0, REG_A1, REG_A2, REG_A7};

verus! {

/// Why control arrived at the trap dispatcher.
#[derive(Clone, Copy, Debug, PartialEq, Eq, Structural)]
pub enum TrapCause {
    /// An environment call from user mode: a syscall.
    UserEnvCall,
    /// A store access fault.
    StoreFault,
    /// A store page fault.
    StorePageFault,
    /// A load access fault.
    LoadFault,
    /// A load page fault.
    LoadPageFault,
    /// An illegal instruction.
    IllegalInstruction,
    /// The timer interrupt.
    SupervisorTimer,
    /// Any cause the kernel does not handle.
    Other,
}

/// Where control must go after the dispatcher has run.
pub enum TrapControl {
    /// Back into the task that trapped, through the trampoline.
    ReturnToUser,
    /// Back into the kernel code that was interrupted.
    ReturnToKernel,
    /// Swap the saved contexts of tasks `prev` and `next`.
    Switch {
        /// The outgoing task.
        prev: usize,
        /// The incoming task, now running.
        next: usize,
    },
    /// Every task has finished: shut the machine down cleanly.
    Shutdown,
    /// A condition the kernel treats as its own bug: shut the machine
    /// down reporting failure.
    Fatal,
}

/// Everything the dispatcher asks the surrounding machine to perform.
pub struct TrapOutcome {
    /// Bytes the current task wrote to the console, if any.
    pub console: Option<Vec<u8>>,
    /// The next timer deadline to program, if the timer fired.
    pub timer_deadline: Option<u64>,
    /// The final user and kernel times of a task that just exited.
    pub exited: Option<(u64, u64)>,
    /// Whether a task was killed by a fault rather than exiting.
    pub killed: bool,
    /// Where control goes next.
    pub control: TrapControl,
}

/// The sole gateway between user-mode execution and kernel logic: it
/// classifies the trap cause and routes to syscall handling, fault
/// termination or timer-driven rescheduling; a trap out of kernel mode
/// tolerates only the timer.  The caller performs what the outcome names:
/// printing, timer programming, the context switch or the shutdown.
#[verifier::rlimit(100)]
pub fn trap_handler(
    mgr: &mut TaskManager,
    allocator: &mut StackFrameAllocator,
    mem: &mut PhysMemory,
    from_user: bool,
    cause: TrapCause,
    stval: u64,
    now_ms: u64,
    now_ticks: u64,
) -> (r: TrapOutcome)
    requires
        old(mem).wf(),
        old(allocator)@.wf(),
        within(old(allocator)@, old(mem)),
        old(mgr).sched_wf(),
        old(mgr).tasks@[old(mgr).current_task as int].wf(old(mem)),
        forall|q: u64|
            old(mgr).tasks@[old(mgr).current_task as int].memory_set.owns_page(q) ==> old(
                allocator,
            )@.live().contains(q),
        old(mgr).stop_watch <= now_ms,
        old(mgr).tasks@[old(mgr).current_task as int].user_time + (now_ms - old(mgr).stop_watch)
            <= u64::MAX,
        old(mgr).tasks@[old(mgr).current_task as int].kernel_time + old(mgr).tasks@[old(
            mgr,
        ).current_task as int].user_time + (now_ms - old(mgr).stop_watch) <= u64::MAX,
        now_ticks <= u64::MAX - CLOCK_FREQ,
    ensures
        final(mem).wf(),
        final(allocator)@.wf(),
        within(final(allocator)@, final(mem)),
        final(mgr).sched_wf(),
        !from_user ==> *final(mgr) == *old(mgr) && *final(mem) == *old(mem) && final(allocator)@
            == old(allocator)@,
        !from_user && cause == TrapCause::SupervisorTimer ==> r.control is ReturnToKernel && (
        r.timer_deadline matches Some(d) && d > now_ticks),
        !from_user && cause != TrapCause::SupervisorTimer ==> r.control is Fatal,
        from_user && cause == TrapCause::SupervisorTimer ==> (r.timer_deadline matches Some(d)
            && d > now_ticks) && r.control is Switch,
        from_user && cause == TrapCause::SupervisorTimer ==> (r.control
            matches TrapControl::Switch { prev, next } ==> final(mgr).tasks@[prev as int].task_status
            == (if next == prev {
            crate::task::TaskStatus::Running
        } else {
            crate::task::TaskStatus::Ready
        })),
        from_user && (cause == TrapCause::StoreFault || cause == TrapCause::StorePageFault
            || cause == TrapCause::LoadFault || cause == TrapCause::LoadPageFault || cause
            == TrapCause::IllegalInstruction) ==> r.killed && (r.control is Switch || r.control
            is Shutdown) && final(mgr).tasks@[old(mgr).current_task as int].task_status
            is Exited,
        from_user && cause == TrapCause::Other ==> r.control is Fatal,
        r.control matches TrapControl::Switch { prev, next } ==> prev == old(mgr).current_task
            && final(mgr).current_task == next && final(mgr).tasks@[next as int].task_status
            is Running && next < final(mgr).tasks@.len(),
        r.control is Shutdown ==> forall|j: int|
            0 <= j < final(mgr).tasks@.len() ==> !((#[trigger] final(mgr).tasks@[j]).task_status
                is Ready),
        from_user && cause == TrapCause::UserEnvCall ==> ({
            let tcb0 = old(mgr).tasks@[old(mgr).current_task as int];
            let cx0 = old(mem).trap_cx(tcb0.trap_cx_ppn.0);
            cx0.x@[REG_A7 as int] == crate::syscall::SYSCALL_GET_TIME && cx0.sepc <= u64::MAX - 4
                && now_ms < 0x8000_0000_0000_0000 ==> r.control is ReturnToUser && ({
                let cx1 = final(mem).trap_cx(tcb0.trap_cx_ppn.0);
                cx1.x@[crate::trap_context::REG_A0 as int] == now_ms && cx1.sepc == cx0.sepc + 4
            })
        }),
        from_user && cause == TrapCause::UserEnvCall ==> ({
            let tcb0 = old(mgr).tasks@[old(mgr).current_task as int];
            let cx0 = old(mem).trap_cx(tcb0.trap_cx_ppn.0);
            let id = cx0.x@[REG_A7 as int];
            let ok_pc = cx0.sepc <= u64::MAX - 4;
            &&& (id == crate::syscall::SYSCALL_EXIT && ok_pc ==> final(mgr).tasks@[old(
                mgr,
            ).current_task as int].task_status is Exited && r.exited is Some && (r.control
                is Switch || r.control is Shutdown))
            &&& (id == crate::syscall::SYSCALL_YIELD && ok_pc ==> r.control is Switch && ({
                let cx1 = final(mem).trap_cx(tcb0.trap_cx_ppn.0);
                cx1.x@[REG_A0 as int] == 0 && cx1.sepc == cx0.sepc + 4
            }))
            &&& (r.control is ReturnToUser ==> final(mem).trap_cx(tcb0.trap_cx_ppn.0).sepc
                == cx0.sepc + 4)
            &&& ({
                let new_brk = tcb0.program_brk + (cx0.x@[REG_A0 as int] as i32);
                id == crate::syscall::SYSCALL_SBRK && ok_pc && tcb0.heap_bottom <= new_brk
                    <= (crate::address::VPN_MASK - 2) * crate::config::PAGE_SIZE && old(
                    allocator,
                )@.free_count() >= 3 * ((new_brk + crate::config::PAGE_SIZE - 1) / (
                crate::config::PAGE_SIZE as int)) - 3 * (tcb0.heap_bottom
                    / crate::config::PAGE_SIZE) ==> r.control is ReturnToUser
                    && final(mem).trap_cx(tcb0.trap_cx_ppn.0).x@[REG_A0 as int]
                    == tcb0.program_brk
            })
            &&& ({
                let fd = cx0.x@[REG_A0 as int];
                let bptr = cx0.x@[REG_A1 as int];
                let blen = cx0.x@[REG_A2 as int];
                let root = tcb0.memory_set.page_table.root_ppn.0;
                id == crate::syscall::SYSCALL_WRITE && ok_pc && fd == crate::syscall::FD_STDOUT
                    && 1 <= blen < 0x8000_0000_0000_0000 && bptr + blen
                    <= crate::address::VPN_MASK * crate::config::PAGE_SIZE && (forall|w: u64|
                    bptr / crate::config::PAGE_SIZE <= w <= (bptr + blen - 1) / (
                    crate::config::PAGE_SIZE as int) ==> (
                    #[trigger] crate::page_table::spec_translate(&*old(mem), root, w)) is Some)
                    && crate::page_table::segs_wf(
                    &*old(mem),
                    crate::page_table::spec_buffer_segs(&*old(mem), root, bptr, blen),
                ) ==> r.control is ReturnToUser && (r.console matches Some(b) && b@
                    == crate::page_table::segs_bytes(
                    &*old(mem),
                    crate::page_table::spec_buffer_segs(&*old(mem), root, bptr, blen),
                )) && final(mem).trap_cx(tcb0.trap_cx_ppn.0).x@[REG_A0 as int] == blen
            })
        }),
        r.control matches TrapControl::Switch { prev, next } ==> forall|j: int|
            0 <= j < old(mgr).tasks@.len() && j != prev && j != next ==> final(mgr).tasks@[j]
                == old(mgr).tasks@[j],
{
    if !from_user {
        if cause == TrapCause::SupervisorTimer {
            let deadline = crate::timer::set_next_trigger(now_ticks);
            return TrapOutcome {
                console: None,
                timer_deadline: Some(deadline),
                exited: None,
                killed: false,
                control: TrapControl::ReturnToKernel,
            };
        }
        return TrapOutcome {
            console: None,
            timer_deadline: None,
            exited: None,
            killed: false,
            control: TrapControl::Fatal,
        };
    }
    mgr.user_time_end(now_ms);
    match cause {
        TrapCause::UserEnvCall => {
            let cur = mgr.current_task;
            let mut cx = {
                let tcb = &mgr.tasks[cur];
                tcb.get_trap_cx(mem)
            };
            let ghost tcb0 = old(mgr).tasks@[old(mgr).current_task as int];
            let ghost cx0 = old(mem).trap_cx(tcb0.trap_cx_ppn.0);
            proof {
                assert(mgr.tasks@[cur as int].trap_cx_ppn == tcb0.trap_cx_ppn);
                assert(cx == cx0);
            }
            if cx.sepc > u64::MAX - 4 {
                return TrapOutcome {
                    console: None,
                    timer_deadline: None,
                    exited: None,
                    killed: false,
                    control: TrapControl::Fatal,
                };
            }
            cx.sepc = cx.sepc + 4;
            let id = cx.x[REG_A7];
            let args = [cx.x[REG_A0], cx.x[REG_A1], cx.x[REG_A2]];
            if id < MAX_SYSCALL_NUM as u64 {
                let c = mgr.tasks[cur].syscall_info[id as usize];
                if c < u64::MAX {
                    mgr.update_syscall_info(id as usize);
                }
            }
            proof {
                assert(mgr.current_task == old(mgr).current_task);
                assert(mgr.tasks@[cur as int].memory_set == tcb0.memory_set);
                assert(*mem == *old(mem));
                assert(args@[0] == cx0.x@[REG_A0 as int]);
                assert(args@[1] == cx0.x@[REG_A1 as int]);
                assert(args@[2] == cx0.x@[REG_A2 as int]);
                assert(id == cx0.x@[REG_A7 as int]);
            }
            let out = syscall(mgr, allocator, mem, id, args, now_ms);
            match out {
                SyscallOutcome::Value { ret } => {
                    cx.x[REG_A0] = ret as u64;
                    let tcb = &mgr.tasks[cur];
                    proof {
                        assert(tcb.trap_cx_ppn == tcb0.trap_cx_ppn);
                        if cx0.x@[REG_A7 as int] == crate::syscall::SYSCALL_WRITE {
                            assert(false);
                        }
                    }
                    tcb.set_trap_cx(mem, cx);
                    mgr.user_time_start(now_ms);
                    proof {
                        assert(mem.trap_cx(tcb0.trap_cx_ppn.0).sepc == cx0.sepc + 4);
                    }
                    TrapOutcome {
                        console: None,
                        timer_deadline: None,
                        exited: None,
                        killed: false,
                        control: TrapControl::ReturnToUser,
                    }
                },
                SyscallOutcome::Output { bytes, ret } => {
                    cx.x[REG_A0] = ret as u64;
                    let tcb = &mgr.tasks[cur];
                    proof {
                        assert(tcb.trap_cx_ppn == tcb0.trap_cx_ppn);
                    }
                    tcb.set_trap_cx(mem, cx);
                    mgr.user_time_start(now_ms);
                    proof {
                        assert(mem.trap_cx(tcb0.trap_cx_ppn.0).sepc == cx0.sepc + 4);
                        assert(mem.trap_cx(tcb0.trap_cx_ppn.0).x@[REG_A0 as int] == ret as u64);
                        let fd = cx0.x@[REG_A0 as int];
                        let bptr = cx0.x@[REG_A1 as int];
                        let blen = cx0.x@[REG_A2 as int];
                        if cx0.x@[REG_A7 as int] == crate::syscall::SYSCALL_WRITE && fd
                            == crate::syscall::FD_STDOUT && 1 <= blen && blen
                            < 0x8000_0000_0000_0000 {
                            assert(ret == blen as i64);
                            assert(ret as u64 == blen);
                            assert(bytes@ == crate::page_table::segs_bytes(
                                &*old(mem),
                                crate::page_table::spec_buffer_segs(
                                    &*old(mem),
                                    tcb0.memory_set.page_table.root_ppn.0,
                                    bptr,
                                    blen,
                                ),
                            ));
                        }
                    }
                    TrapOutcome {
                        console: Some(bytes),
                        timer_deadline: None,
                        exited: None,
                        killed: false,
                        control: TrapControl::ReturnToUser,
                    }
                },
                SyscallOutcome::SwitchOut => {
                    cx.x[REG_A0] = 0;
                    let tcb = &mgr.tasks[cur];
                    tcb.set_trap_cx(mem, cx);
                    match mgr.suspend_current_and_run_next(now_ms) {
                        None => {
                            proof {
                                assert(false);
                            }
                            TrapOutcome {
                                console: None,
                                timer_deadline: None,
                                exited: None,
                                killed: false,
                                control: TrapControl::Shutdown,
                            }
                        },
                        Some(p) => TrapOutcome {
                            console: None,
                            timer_deadline: None,
                            exited: None,
                            killed: false,
                            control: TrapControl::Switch { prev: p.0, next: p.1 },
                        },
                    }
                },
                SyscallOutcome::Exit { code } => {
                    let times = mgr.mark_current_exited(now_ms);
                    match mgr.run_next_task() {
                        None => {
                            proof {
                                crate::task_manager::lemma_no_ready_task(
                                    mgr.tasks@,
                                    mgr.current_task as int,
                                );
                            }
                            TrapOutcome {
                                console: None,
                                timer_deadline: None,
                                exited: Some(times),
                                killed: false,
                                control: TrapControl::Shutdown,
                            }
                        },
                        Some(p) => TrapOutcome {
                            console: None,
                            timer_deadline: None,
                            exited: Some(times),
                            killed: false,
                            control: TrapControl::Switch { prev: p.0, next: p.1 },
                        },
                    }
                },
                SyscallOutcome::Fatal => TrapOutcome {
                    console: None,
                    timer_deadline: None,
                    exited: None,
                    killed: false,
                    control: TrapControl::Fatal,
                },
            }
        },
        TrapCause::StoreFault
        | TrapCause::StorePageFault
        | TrapCause::LoadFault
        | TrapCause::LoadPageFault
        | TrapCause::IllegalInstruction => {
            let times = mgr.mark_current_exited(now_ms);
            match mgr.run_next_task() {
                None => {
                    proof {
                        crate::task_manager::lemma_no_ready_task(
                            mgr.tasks@,
                            mgr.current_task as int,
                        );
                    }
                    TrapOutcome {
                        console: None,
                        timer_deadline: None,
                        exited: Some(times),
                        killed: true,
                        control: TrapControl::Shutdown,
                    }
                },
                Some(p) => TrapOutcome {
                    console: None,
                    timer_deadline: None,
                    exited: Some(times),
                    killed: true,
                    control: TrapControl::Switch { prev: p.0, next: p.1 },
                },
            }
        },
        TrapCause::SupervisorTimer => {
            let deadline = crate::timer::set_next_trigger(now_ticks);
            match mgr.suspend_current_and_run_next(now_ms) {
                None => {
                    proof {
                        assert(false);
                    }
                    TrapOutcome {
                        console: None,
                        timer_deadline: Some(deadline),
                        exited: None,
                        killed: false,
                        control: TrapControl::Shutdown,
                    }
                },
                Some(p) => TrapOutcome {
                    console: None,
                    timer_deadline: Some(deadline),
                    exited: None,
                    killed: false,
                    control: TrapControl::Switch { prev: p.0, next: p.1 },
                },
            }
        },
        TrapCause::Other => TrapOutcome {
            console: None,
            timer_deadline: None,
            exited: None,
            killed: false,
            control: TrapControl::Fatal,
        },
    }
}

} // verus!
