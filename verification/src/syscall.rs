use vstd::prelude::*;

use crate::config::{MAX_SYSCALL_NUM, PAGE_SIZE};
use crate::frame_allocator::{within, StackFrameAllocator};
use crate::page_table::{
    read_buffer, segs_bytes, segs_wf, spec_translate, translated_byte_buffer, write_buffer,
    ByteSegment,
};
use crate::phys_mem::PhysMemory;
use crate::task::TaskStatus;
use crate::task_manager::TaskManager;
use crate::address::VPN_MASK;

verus! {

/// Syscall id of `write`.
pub const SYSCALL_WRITE: u64 = 64;
/// Syscall id of `exit`.
pub const SYSCALL_EXIT: u64 = 93;
/// Syscall id of `yield`.
pub const SYSCALL_YIELD: u64 = 124;
/// Syscall id of `get_time`.
pub const SYSCALL_GET_TIME: u64 = 169;
/// Syscall id of `sbrk`.
pub const SYSCALL_SBRK: u64 = 214;
/// Syscall id of `task_info`.
pub const SYSCALL_TASK_INFO: u64 = 410;

/// The one file descriptor `write` supports.
pub const FD_STDOUT: u64 = 1;

/// What a task may ask about itself.
pub struct TaskInfo {
    /// The asking task's status.
    pub status: TaskStatus,
    /// Per-syscall invocation counts, indexed by id.
    pub call: Vec<u64>,
    /// Total running time in milliseconds, kernel plus user.
    pub time: u64,
}

/// What one syscall asks the surrounding kernel to do next.
pub enum SyscallOutcome {
    /// Store `ret` in the return register and return to the task.
    Value {
        /// The syscall's return value.
        ret: i64,
    },
    /// Send `bytes` to the console, store `ret`, return to the task.
    Output {
        /// The bytes the task wrote.
        bytes: Vec<u8>,
        /// The syscall's return value.
        ret: i64,
    },
    /// Store zero, mark the task ready and reschedule.
    SwitchOut,
    /// Terminate the task and reschedule.
    Exit {
        /// The task's exit code.
        code: i32,
    },
    /// A condition the kernel treats as its own bug: shut the machine
    /// down.
    Fatal,
}

/// The little-endian bytes of one 64-bit number.
pub open spec fn le_bytes(x: u64) -> Seq<u8> {
    Seq::new(8, |i: int| ((x >> ((8 * i) as u64)) & 0xffu64) as u8)
}

/// The numeric code of a status, as it is written into a task-info reply.
pub open spec fn status_code(s: TaskStatus) -> u64 {
    match s {
        TaskStatus::UnInit => 0,
        TaskStatus::Ready => 1,
        TaskStatus::Running => 2,
        TaskStatus::Exited => 3,
    }
}

/// The little-endian bytes of the first `j` counters.
pub open spec fn calls_bytes(calls: Seq<u64>, j: int) -> Seq<u8>
    decreases j,
{
    if j <= 0 {
        Seq::empty()
    } else {
        calls_bytes(calls, j - 1) + le_bytes(calls[j - 1])
    }
}

/// The wire form of a task-info reply: the status code, then every
/// counter, then the total time, all as little-endian 64-bit numbers.
pub open spec fn task_info_bytes(status: TaskStatus, calls: Seq<u64>, time: u64) -> Seq<u8> {
    le_bytes(status_code(status)) + calls_bytes(calls, calls.len() as int) + le_bytes(time)
}

/// Appends the little-endian bytes of one 64-bit number.
fn push_le_bytes(v: &mut Vec<u8>, x: u64)
    ensures
        final(v)@ == old(v)@ + le_bytes(x),
{
    let mut k: usize = 0;
    while k < 8
        invariant
            k <= 8,
            v@ == old(v)@ + le_bytes(x).subrange(0, k as int),
        decreases 8 - k,
    {
        let b = ((x >> (8 * k as u64)) & 0xff) as u8;
        v.push(b);
        proof {
            assert(v@ =~= old(v)@ + le_bytes(x).subrange(0, k + 1));
        }
        k = k + 1;
    }
    proof {
        assert(le_bytes(x).subrange(0, 8) =~= le_bytes(x));
    }
}

/// Serializes a task-info reply to its wire form.
fn serialize_task_info(status: TaskStatus, calls: &Vec<u64>, time: u64) -> (r: Vec<u8>)
    ensures
        r@ == task_info_bytes(status, calls@, time),
        r@.len() == 16 + 8 * calls@.len(),
{
    let mut r: Vec<u8> = Vec::new();
    let code: u64 = match status {
        TaskStatus::UnInit => 0,
        TaskStatus::Ready => 1,
        TaskStatus::Running => 2,
        TaskStatus::Exited => 3,
    };
    push_le_bytes(&mut r, code);
    let n = calls.len();
    let mut j: usize = 0;
    while j < n
        invariant
            n == calls@.len(),
            j <= n,
            r@ == le_bytes(status_code(status)) + calls_bytes(calls@, j as int),
            r@.len() == 8 + 8 * j,
        decreases n - j,
    {
        let c = calls[j];
        push_le_bytes(&mut r, c);
        proof {
            assert(r@ =~= le_bytes(status_code(status)) + calls_bytes(calls@, j + 1));
        }
        j = j + 1;
    }
    push_le_bytes(&mut r, time);
    proof {
        assert(r@ =~= task_info_bytes(status, calls@, time));
        lemma_calls_bytes_len(calls@, n as int);
    }
    r
}

/// The counters' wire form is eight bytes per counter.
proof fn lemma_calls_bytes_len(calls: Seq<u64>, j: int)
    requires
        0 <= j <= calls.len(),
    ensures
        calls_bytes(calls, j).len() == 8 * j,
    decreases j,
{
    if j > 0 {
        lemma_calls_bytes_len(calls, j - 1);
    }
}

/// Whether every segment is a writable-model data page with sane offsets
/// and no two segments share a page.
pub open spec fn segs_writable(mem: &PhysMemory, segs: Seq<ByteSegment>) -> bool {
    segs_wf(mem, segs) && forall|j: int, j2: int|
        0 <= j < segs.len() && 0 <= j2 < segs.len() && j != j2 ==> (#[trigger] segs[j]).ppn.0 != (
        #[trigger] segs[j2]).ppn.0
}

/// Checks at run time that a list of segments can be read and written:
/// each sits on a data page with sane offsets, and no two share a page.
fn check_segs(mem: &PhysMemory, segs: &Vec<ByteSegment>) -> (r: bool)
    requires
        mem.wf(),
    ensures
        r == segs_writable(mem, segs@),
{
    let n = segs.len();
    let mut j: usize = 0;
    while j < n
        invariant
            mem.wf(),
            n == segs@.len(),
            j <= n,
            forall|k: int|
                0 <= k < j ==> mem.is_data((#[trigger] segs@[k]).ppn.0) && segs@[k].start
                    <= segs@[k].end <= crate::config::PAGE_BYTES,
            forall|k: int, k2: int|
                0 <= k < j && 0 <= k2 < j && k != k2 ==> (#[trigger] segs@[k]).ppn.0 != (
                #[trigger] segs@[k2]).ppn.0,
        decreases n - j,
    {
        let s = segs[j];
        if !(mem.is_data_page(s.ppn.0) && s.start <= s.end && s.end <= crate::config::PAGE_BYTES) {
            return false;
        }
        let mut k: usize = 0;
        while k < j
            invariant
                mem.wf(),
                n == segs@.len(),
                j < n,
                k <= j,
                s == segs@[j as int],
                forall|k2: int| 0 <= k2 < k ==> (#[trigger] segs@[k2]).ppn.0 != s.ppn.0,
            decreases j - k,
        {
            if segs[k].ppn.0 == s.ppn.0 {
                return false;
            }
            k = k + 1;
        }
        j = j + 1;
    }
    true
}

/// Writes a byte span of the task's address space through its page table:
/// the write succeeds exactly when every touched page is mapped to a
/// distinct data page and the pieces add up to the data handed in;
/// otherwise nothing changes.
pub fn write_user_buffer(
    mgr: &TaskManager,
    mem: &mut PhysMemory,
    ptr: u64,
    data: &Vec<u8>,
) -> (r: bool)
    requires
        old(mem).wf(),
        mgr.sched_wf(),
        data@.len() >= 1,
        ptr + data@.len() <= VPN_MASK * PAGE_SIZE,
    ensures
        final(mem).wf(),
        final(mem).base == old(mem).base,
        final(mem).pages@.len() == old(mem).pages@.len(),
        !r ==> *final(mem) == *old(mem),
        ({
            let root = mgr.tasks@[mgr.current_task as int].memory_set.page_table.root_ppn.0;
            let segs = crate::page_table::spec_buffer_segs(
                &*old(mem),
                root,
                ptr,
                data@.len() as u64,
            );
            (forall|w: u64|
                ptr / PAGE_SIZE <= w <= (ptr + data@.len() - 1) / (PAGE_SIZE as int) ==> (
                #[trigger] spec_translate(&*old(mem), root, w)) is Some) && segs_writable(
                &*old(mem),
                segs,
            ) && crate::page_table::segs_len_prefix(segs, segs.len() as int) == data@.len()
        }) ==> r,
        r ==> ({
            let root = mgr.tasks@[mgr.current_task as int].memory_set.page_table.root_ppn.0;
            let segs = crate::page_table::spec_buffer_segs(
                &*old(mem),
                root,
                ptr,
                data@.len() as u64,
            );
            &&& segs_bytes(final(mem), segs) == data@
            &&& segs_writable(&*old(mem), segs)
            &&& segs_wf(final(mem), segs)
            &&& forall|q: u64|
                (forall|j: int| 0 <= j < segs.len() ==> (#[trigger] segs[j]).ppn.0 != q)
                    ==> #[trigger] final(mem).page(q) == old(mem).page(q)
        }),
{
    let pt = &mgr.tasks[mgr.current_task].memory_set.page_table;
    let len = data.len() as u64;
    match translated_byte_buffer(pt, mem, ptr, len) {
        None => false,
        Some(segs) => {
            if !check_segs(mem, &segs) {
                return false;
            }
            if !total_len_matches(&segs, data.len()) {
                return false;
            }
            write_buffer(mem, &segs, data.as_slice());
            true
        },
    }
}

/// Checks that the segments' total length is a given count.
fn total_len_matches(segs: &Vec<ByteSegment>, want: usize) -> (r: bool)
    requires
        segs@.len() <= 0x800_0000,
        forall|j: int|
            0 <= j < segs@.len() ==> (#[trigger] segs@[j]).start <= segs@[j].end
                <= crate::config::PAGE_BYTES,
    ensures
        r == (crate::page_table::segs_len_prefix(segs@, segs@.len() as int) == want),
{
    let n = segs.len();
    let mut j: usize = 0;
    let mut total: u64 = 0;
    while j < n
        invariant
            n == segs@.len(),
            n <= 0x800_0000,
            j <= n,
            forall|k: int|
                0 <= k < segs@.len() ==> (#[trigger] segs@[k]).start <= segs@[k].end
                    <= crate::config::PAGE_BYTES,
            total == crate::page_table::segs_len_prefix(segs@, j as int),
            total <= j * 4096,
        decreases n - j,
    {
        proof {
            assert(j * 4096 + 4096 <= n * 4096) by (nonlinear_arith)
                requires
                    j < n,
            ;
            assert(n * 4096 <= 0x800_0000 * 4096) by (nonlinear_arith)
                requires
                    n <= 0x800_0000,
            ;
        }
        let s = segs[j];
        total = total + (s.end - s.start) as u64;
        j = j + 1;
    }
    total == want as u64
}

/// Routes one syscall to its handler and reports what the kernel must do
/// next.  `write` to the console hands the task's bytes out; `exit` and
/// `yield` become scheduling decisions; `get_time` answers in
/// milliseconds; `sbrk` moves the current task's break; `task_info`
/// answers into the asking task's buffer.  An unknown id, an unsupported
/// descriptor and an unusable buffer are conditions the kernel treats as
/// its own bugs: the machine shuts down.
pub fn syscall(
    mgr: &mut TaskManager,
    allocator: &mut StackFrameAllocator,
    mem: &mut PhysMemory,
    syscall_id: u64,
    args: [u64; 3],
    now_ms: u64,
) -> (r: SyscallOutcome)
    requires
        old(mem).wf(),
        old(allocator)@.wf(),
        within(old(allocator)@, old(mem)),
        old(mgr).sched_wf(),
        old(mgr).tasks@[old(mgr).current_task as int].wf(old(mem)),
        forall|q: u64|
            old(mgr).tasks@[old(mgr).current_task as int].memory_set.owns_page(q) ==> old(
                allocator,
            )@.live().contains(q),
        old(mgr).tasks@[old(mgr).current_task as int].kernel_time + old(mgr).tasks@[old(
            mgr,
        ).current_task as int].user_time <= u64::MAX,
    ensures
        final(mem).wf(),
        final(allocator)@.wf(),
        within(final(allocator)@, final(mem)),
        final(mem).base == old(mem).base,
        final(mem).pages@.len() == old(mem).pages@.len(),
        final(mgr).sched_wf(),
        final(mgr).current_task == old(mgr).current_task,
        final(mgr).stop_watch == old(mgr).stop_watch,
        final(mgr).tasks@.len() == old(mgr).tasks@.len(),
        forall|j: int|
            0 <= j < old(mgr).tasks@.len() && j != old(mgr).current_task ==> final(mgr).tasks@[j]
                == old(mgr).tasks@[j],
        final(mgr).tasks@[old(mgr).current_task as int].trap_cx_ppn == old(mgr).tasks@[old(
            mgr,
        ).current_task as int].trap_cx_ppn,
        final(mgr).tasks@[old(mgr).current_task as int].memory_set.page_table.root_ppn == old(
            mgr,
        ).tasks@[old(mgr).current_task as int].memory_set.page_table.root_ppn,
        syscall_id != SYSCALL_WRITE && syscall_id != SYSCALL_EXIT && syscall_id != SYSCALL_YIELD
            && syscall_id != SYSCALL_GET_TIME && syscall_id != SYSCALL_SBRK && syscall_id
            != SYSCALL_TASK_INFO ==> r is Fatal,
        syscall_id == SYSCALL_EXIT ==> r == (SyscallOutcome::Exit { code: args[0] as i32 })
            && *final(mgr) == *old(mgr) && *final(mem) == *old(mem),
        syscall_id == SYSCALL_YIELD ==> r is SwitchOut && *final(mgr) == *old(mgr) && *final(mem)
            == *old(mem),
        syscall_id == SYSCALL_GET_TIME ==> r == (SyscallOutcome::Value { ret: now_ms as i64 })
            && *final(mgr) == *old(mgr) && *final(mem) == *old(mem),
        syscall_id == SYSCALL_WRITE ==> *final(mgr) == *old(mgr) && *final(mem) == *old(mem) && (
        args[0] != FD_STDOUT ==> r is Fatal) && (args[0] == FD_STDOUT && args[2] == 0 ==> r is Output
            && r->Output_bytes@ == Seq::<u8>::empty() && r->Output_ret == 0) && (args[0]
            == FD_STDOUT && args[2]
            >= 1 && r is Output ==> r->Output_ret == args[2] as i64 && r->Output_bytes@
            == segs_bytes(
            &*old(mem),
            crate::page_table::spec_buffer_segs(
                &*old(mem),
                old(mgr).tasks@[old(mgr).current_task as int].memory_set.page_table.root_ppn.0,
                args[1],
                args[2],
            ),
        )),
        syscall_id == SYSCALL_WRITE ==> ({
            let root = old(mgr).tasks@[old(
                mgr,
            ).current_task as int].memory_set.page_table.root_ppn.0;
            args[0] == FD_STDOUT && args[2] >= 1 && args[1] + args[2] <= crate::address::VPN_MASK
                * PAGE_SIZE && (forall|w: u64|
                args[1] / PAGE_SIZE <= w <= (args[1] + args[2] - 1) / (PAGE_SIZE as int) ==> (
                #[trigger] spec_translate(&*old(mem), root, w)) is Some) && segs_wf(
                &*old(mem),
                crate::page_table::spec_buffer_segs(&*old(mem), root, args[1], args[2]),
            )
        } ==> r is Output),
        syscall_id == SYSCALL_WRITE ==> r is Output || r is Fatal,
        syscall_id == SYSCALL_TASK_INFO ==> r is Value || r is Fatal,
        syscall_id == SYSCALL_SBRK ==> {
            let cur = old(mgr).current_task as int;
            let old_tcb = old(mgr).tasks@[cur];
            let new_brk = old_tcb.program_brk + (args[0] as i32);
            &&& (r is Value && r->Value_ret == -1) <==> (new_brk < old_tcb.heap_bottom || new_brk
                > (crate::address::VPN_MASK - 2) * PAGE_SIZE)
            &&& (r is Value && r->Value_ret == -1) ==> final(mgr).tasks@ == old(mgr).tasks@
                && *final(mem) == *old(mem)
            &&& (r is Value && r->Value_ret != -1) ==> r->Value_ret == old_tcb.program_brk as i64
                && final(mgr).tasks@[cur].program_brk == new_brk && final(mgr).tasks@[cur].wf(
                final(mem),
            )
            &&& (old_tcb.heap_bottom <= new_brk <= (crate::address::VPN_MASK - 2) * PAGE_SIZE
                && old(allocator)@.free_count() >= 3 * ((new_brk + PAGE_SIZE - 1) / (
            PAGE_SIZE as int)) - 3 * (old_tcb.heap_bottom / PAGE_SIZE)) ==> r == (
            SyscallOutcome::Value { ret: old_tcb.program_brk as i64 })
            &&& r is Value || r is Fatal
        },
        r is Value || r is Output || r is SwitchOut ==> final(mgr).tasks@[old(
            mgr,
        ).current_task as int].wf(final(mem)),
        syscall_id == SYSCALL_TASK_INFO ==> (args[0] != SYSCALL_WRITE && args[0] != SYSCALL_EXIT
            && args[0] != SYSCALL_YIELD && args[0] != SYSCALL_GET_TIME && args[0]
            != SYSCALL_TASK_INFO ==> r == (SyscallOutcome::Value { ret: -1i64 }) && *final(mem)
            == *old(mem)) && ({
            let root = old(mgr).tasks@[old(
                mgr,
            ).current_task as int].memory_set.page_table.root_ppn.0;
            let rlen = (16 + 8 * MAX_SYSCALL_NUM) as u64;
            let segs = crate::page_table::spec_buffer_segs(&*old(mem), root, args[1], rlen);
            (args[0] == SYSCALL_WRITE || args[0] == SYSCALL_EXIT || args[0] == SYSCALL_YIELD
                || args[0] == SYSCALL_GET_TIME || args[0] == SYSCALL_TASK_INFO) && args[1] + rlen
                <= crate::address::VPN_MASK * PAGE_SIZE && (forall|w: u64|
                args[1] / PAGE_SIZE <= w <= (args[1] + rlen - 1) / (PAGE_SIZE as int) ==> (
                #[trigger] spec_translate(&*old(mem), root, w)) is Some) && segs_writable(
                &*old(mem),
                segs,
            ) && crate::page_table::segs_len_prefix(segs, segs.len() as int) == rlen
        } ==> r == (SyscallOutcome::Value { ret: 0i64 })) && (r is Value && r->Value_ret == 0
            ==> segs_bytes(
            final(mem),
            crate::page_table::spec_buffer_segs(
                &*old(mem),
                old(mgr).tasks@[old(mgr).current_task as int].memory_set.page_table.root_ppn.0,
                args[1],
                (16 + 8 * MAX_SYSCALL_NUM) as u64,
            ),
        ) == task_info_bytes(
            TaskStatus::Running,
            old(mgr).tasks@[old(mgr).current_task as int].syscall_info@,
            (old(mgr).tasks@[old(mgr).current_task as int].kernel_time + old(mgr).tasks@[old(
                mgr,
            ).current_task as int].user_time) as u64,
        )),
{
    if syscall_id == SYSCALL_WRITE {
        sys_write(mgr, mem, args[0], args[1], args[2])
    } else if syscall_id == SYSCALL_EXIT {
        SyscallOutcome::Exit { code: args[0] as i32 }
    } else if syscall_id == SYSCALL_YIELD {
        sys_yield()
    } else if syscall_id == SYSCALL_GET_TIME {
        sys_get_time(now_ms)
    } else if syscall_id == SYSCALL_SBRK {
        let cur = mgr.current_task;
        let mut tcb = mgr.tasks.remove(cur);
        let res = tcb.change_program_brk(allocator, mem, args[0] as i32);
        let old_brk = match res {
            Err(_) => {
                mgr.tasks.insert(cur, tcb);
                proof {
                    assert(mgr.tasks@ =~= old(mgr).tasks@.update(
                        cur as int,
                        mgr.tasks@[cur as int],
                    ));
                }
                return SyscallOutcome::Fatal;
            },
            Ok(None) => {
                mgr.tasks.insert(cur, tcb);
                proof {
                    assert(mgr.tasks@ =~= old(mgr).tasks@.update(
                        cur as int,
                        mgr.tasks@[cur as int],
                    ));
                    assert(mgr.tasks@ =~= old(mgr).tasks@);
                }
                return SyscallOutcome::Value { ret: -1 };
            },
            Ok(Some(b)) => b,
        };
        mgr.tasks.insert(cur, tcb);
        proof {
            assert(mgr.tasks@ =~= old(mgr).tasks@.update(cur as int, mgr.tasks@[cur as int]));
        }
        SyscallOutcome::Value { ret: old_brk as i64 }
    } else if syscall_id == SYSCALL_TASK_INFO {
        sys_task_info(mgr, mem, args[0], args[1])
    } else {
        SyscallOutcome::Fatal
    }
}

/// Writes the task's bytes at `[ptr, ptr + len)` out to the console
/// descriptor and answers the byte count.  Any other descriptor, and a
/// span any part of which is not mapped to a readable data page, is a
/// condition the kernel treats as its own bug.
pub fn sys_write(
    mgr: &TaskManager,
    mem: &PhysMemory,
    fd: u64,
    ptr: u64,
    len: u64,
) -> (r: SyscallOutcome)
    requires
        mem.wf(),
        mgr.sched_wf(),
    ensures
        fd != FD_STDOUT ==> r is Fatal,
        fd == FD_STDOUT && len == 0 ==> r is Output && r->Output_bytes@ == Seq::<u8>::empty()
            && r->Output_ret == 0,
        fd == FD_STDOUT && len >= 1 && r is Output ==> r->Output_ret == len as i64
            && r->Output_bytes@ == segs_bytes(
            mem,
            crate::page_table::spec_buffer_segs(
                mem,
                mgr.tasks@[mgr.current_task as int].memory_set.page_table.root_ppn.0,
                ptr,
                len,
            ),
        ),
        ({
            let root = mgr.tasks@[mgr.current_task as int].memory_set.page_table.root_ppn.0;
            fd == FD_STDOUT && len >= 1 && ptr + len <= crate::address::VPN_MASK * PAGE_SIZE && (
            forall|w: u64|
                ptr / PAGE_SIZE <= w <= (ptr + len - 1) / (PAGE_SIZE as int) ==> (
                #[trigger] spec_translate(mem, root, w)) is Some) && segs_wf(
                mem,
                crate::page_table::spec_buffer_segs(mem, root, ptr, len),
            )
        }) ==> r is Output,
        r is Output || r is Fatal,
{
    if fd != FD_STDOUT {
        return SyscallOutcome::Fatal;
    }
    if len == 0 {
        return SyscallOutcome::Output { bytes: Vec::new(), ret: 0 };
    }
    if ptr > VPN_MASK * PAGE_SIZE || len > VPN_MASK * PAGE_SIZE - ptr {
        return SyscallOutcome::Fatal;
    }
    let pt = &mgr.tasks[mgr.current_task].memory_set.page_table;
    match translated_byte_buffer(pt, mem, ptr, len) {
        None => SyscallOutcome::Fatal,
        Some(segs) => {
            if !check_segs_readable(mem, &segs) {
                return SyscallOutcome::Fatal;
            }
            let bytes = read_buffer(mem, &segs);
            SyscallOutcome::Output { bytes, ret: len as i64 }
        },
    }
}

/// Answers a task's question about itself: for a recognized id, writes
/// the status, every syscall counter and the total running time into the
/// asking task's buffer and answers zero; an unrecognized id answers the
/// failure sentinel.  A buffer the kernel cannot write is a condition it
/// treats as its own bug.
pub fn sys_task_info(mgr: &TaskManager, mem: &mut PhysMemory, id: u64, ptr: u64) -> (r:
    SyscallOutcome)
    requires
        old(mem).wf(),
        mgr.sched_wf(),
        mgr.tasks@[mgr.current_task as int].syscall_info@.len() == MAX_SYSCALL_NUM,
        mgr.tasks@[mgr.current_task as int].kernel_time + mgr.tasks@[mgr.current_task as int].user_time
            <= u64::MAX,
        mgr.tasks@[mgr.current_task as int].wf(old(mem)),
    ensures
        final(mem).wf(),
        final(mem).base == old(mem).base,
        final(mem).pages@.len() == old(mem).pages@.len(),
        mgr.tasks@[mgr.current_task as int].wf(final(mem)),
        id != SYSCALL_WRITE && id != SYSCALL_EXIT && id != SYSCALL_YIELD && id != SYSCALL_GET_TIME
            && id != SYSCALL_TASK_INFO ==> r == (SyscallOutcome::Value { ret: -1i64 })
            && *final(mem) == *old(mem),
        ({
            let root = mgr.tasks@[mgr.current_task as int].memory_set.page_table.root_ppn.0;
            let rlen = (16 + 8 * MAX_SYSCALL_NUM) as u64;
            let segs = crate::page_table::spec_buffer_segs(&*old(mem), root, ptr, rlen);
            (id == SYSCALL_WRITE || id == SYSCALL_EXIT || id == SYSCALL_YIELD || id
                == SYSCALL_GET_TIME || id == SYSCALL_TASK_INFO) && ptr + rlen
                <= crate::address::VPN_MASK * PAGE_SIZE && (forall|w: u64|
                ptr / PAGE_SIZE <= w <= (ptr + rlen - 1) / (PAGE_SIZE as int) ==> (
                #[trigger] spec_translate(&*old(mem), root, w)) is Some) && segs_writable(
                &*old(mem),
                segs,
            ) && crate::page_table::segs_len_prefix(segs, segs.len() as int) == rlen
        }) ==> r == (SyscallOutcome::Value { ret: 0i64 }),
        r is Value && r->Value_ret == 0 ==> segs_bytes(
            final(mem),
            crate::page_table::spec_buffer_segs(
                &*old(mem),
                mgr.tasks@[mgr.current_task as int].memory_set.page_table.root_ppn.0,
                ptr,
                (16 + 8 * MAX_SYSCALL_NUM) as u64,
            ),
        ) == task_info_bytes(
            TaskStatus::Running,
            mgr.tasks@[mgr.current_task as int].syscall_info@,
            (mgr.tasks@[mgr.current_task as int].kernel_time + mgr.tasks@[mgr.current_task as int].user_time) as u64,
        ),
        r is Value || r is Fatal,
        r is Fatal ==> *final(mem) == *old(mem),
{
    if !(id == SYSCALL_WRITE || id == SYSCALL_EXIT || id == SYSCALL_YIELD || id == SYSCALL_GET_TIME
        || id == SYSCALL_TASK_INFO) {
        return SyscallOutcome::Value { ret: -1 };
    }
    let calls = mgr.get_syscall_info();
    let time = mgr.get_total_time();
    let data = serialize_task_info(TaskStatus::Running, &calls, time);
    let dlen = data.len() as u64;
    if ptr > VPN_MASK * PAGE_SIZE || dlen > VPN_MASK * PAGE_SIZE - ptr {
        return SyscallOutcome::Fatal;
    }
    let ghost m_before = *mem;
    if write_user_buffer(mgr, mem, ptr, &data) {
        proof {
            let cur = mgr.current_task as int;
            assert forall|q: u64|
                #[trigger] mem.page(q) == m_before.page(q) || (m_before.is_data(q) && mem.is_data(
                    q,
                )) by {
                let segs = crate::page_table::spec_buffer_segs(
                    &m_before,
                    mgr.tasks@[cur].memory_set.page_table.root_ppn.0,
                    ptr,
                    data@.len() as u64,
                );
                if exists|j: int| 0 <= j < segs.len() && (#[trigger] segs[j]).ppn.0 == q {
                } else {
                    assert(forall|j: int| 0 <= j < segs.len() ==> (#[trigger] segs[j]).ppn.0 != q);
                    assert(mem.page(q) == m_before.page(q));
                }
            }
            crate::memory_set::lemma_ms_data_write(mgr.tasks@[cur].memory_set, m_before, *mem);
        }
        SyscallOutcome::Value { ret: 0 }
    } else {
        SyscallOutcome::Fatal
    }
}

/// Checks at run time that every segment sits on a readable data page
/// with sane offsets.
fn check_segs_readable(mem: &PhysMemory, segs: &Vec<ByteSegment>) -> (r: bool)
    requires
        mem.wf(),
    ensures
        r == segs_wf(mem, segs@),
{
    let n = segs.len();
    let mut j: usize = 0;
    while j < n
        invariant
            mem.wf(),
            n == segs@.len(),
            j <= n,
            forall|k: int|
                0 <= k < j ==> mem.is_data((#[trigger] segs@[k]).ppn.0) && segs@[k].start
                    <= segs@[k].end <= crate::config::PAGE_BYTES,
        decreases n - j,
    {
        let s = segs[j];
        if !(mem.is_data_page(s.ppn.0) && s.start <= s.end && s.end <= crate::config::PAGE_BYTES) {
            return false;
        }
        j = j + 1;
    }
    true
}

/// A voluntary yield: the task gives the core up; the syscall answers
/// zero once the task runs again.
pub fn sys_yield() -> (r: SyscallOutcome)
    ensures
        r is SwitchOut,
{
    SyscallOutcome::SwitchOut
}

/// Answers the milliseconds since boot.
pub fn sys_get_time(now_ms: u64) -> (r: SyscallOutcome)
    ensures
        r == (SyscallOutcome::Value { ret: now_ms as i64 }),
{
    SyscallOutcome::Value { ret: now_ms as i64 }
}

} // verus!


