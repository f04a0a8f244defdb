use rvkernel::{
    get_time_ms, set_next_trigger, syscall, trap_handler, MemorySet, PhysMemory, PhysPageNum,
    StackFrameAllocator, SyscallOutcome, TaskControlBlock, TaskManager, TaskStatus, TrapCause,
    TrapControl, VirtPageNum,
};

fn put_le(buf: &mut Vec<u8>, at: usize, width: usize, value: u64) {
    for k in 0..width {
        buf[at + k] = ((value >> (8 * k)) & 0xff) as u8;
    }
}

/// A minimal program image: one loadable piece at 0x10000 carrying a few
/// bytes, entered at 0x10000.
fn tiny_image() -> Vec<u8> {
    let payload: Vec<u8> = vec![0x13, 0x00, 0x00, 0x00, 0xaa, 0xbb];
    let mut img = vec![0u8; 120 + payload.len()];
    img[0] = 0x7f;
    img[1] = 0x45;
    img[2] = 0x4c;
    img[3] = 0x46;
    put_le(&mut img, 24, 8, 0x10000); // entry point
    put_le(&mut img, 32, 8, 64); // header table offset
    put_le(&mut img, 54, 2, 56); // header entry size
    put_le(&mut img, 56, 2, 1); // one header
    put_le(&mut img, 64, 4, 1); // a loadable piece
    put_le(&mut img, 68, 4, 7); // readable, writable, executable
    put_le(&mut img, 72, 8, 120); // bytes start here
    put_le(&mut img, 80, 8, 0x10000); // virtual address
    put_le(&mut img, 96, 8, payload.len() as u64); // bytes provided
    put_le(&mut img, 104, 8, 0x1000); // bytes occupied
    for (k, b) in payload.iter().enumerate() {
        img[120 + k] = *b;
    }
    img
}

fn fresh_memory() -> (PhysMemory, StackFrameAllocator) {
    let base: u64 = 0x1000;
    let count: usize = 2048;
    let mem = PhysMemory::new(base, count);
    let mut allocator = StackFrameAllocator::new();
    allocator.init(PhysPageNum(base), PhysPageNum(base + count as u64));
    (mem, allocator)
}

fn build_tasks(n: usize) -> (PhysMemory, StackFrameAllocator, MemorySet, TaskManager) {
    let (mut mem, mut allocator) = fresh_memory();
    let mut kernel_space = MemorySet::new_bare(&mut allocator, &mut mem).unwrap();
    kernel_space.map_trampoline(&mut allocator, &mut mem, PhysPageNum(0x900)).unwrap();
    let img = tiny_image();
    let mut tasks = Vec::new();
    for app_id in 0..n {
        let tcb = TaskControlBlock::new(
            &mut allocator,
            &mut mem,
            &mut kernel_space,
            img.as_slice(),
            app_id,
            PhysPageNum(0x900),
            0x2000, // trap dispatch entry
            0x3000, // return-to-user entry
            0,      // status word as the platform reports it
        )
        .unwrap();
        tasks.push(tcb);
    }
    let mgr = TaskManager::new(tasks);
    (mem, allocator, kernel_space, mgr)
}

fn issue_syscall(
    mgr: &mut TaskManager,
    allocator: &mut StackFrameAllocator,
    mem: &mut PhysMemory,
    id: u64,
    args: [u64; 3],
    now_ms: u64,
) -> rvkernel::TrapOutcome {
    let cur = mgr.current_task;
    let mut cx = mgr.tasks[cur].get_trap_cx(mem);
    cx.x[17] = id;
    cx.x[10] = args[0];
    cx.x[11] = args[1];
    cx.x[12] = args[2];
    mgr.tasks[cur].set_trap_cx(mem, cx);
    trap_handler(mgr, allocator, mem, true, TrapCause::UserEnvCall, 0, now_ms, 1_000_000)
}

#[test]
fn task_construction_sets_up_context_and_break() {
    let (mem, _allocator, kernel_space, mgr) = build_tasks(1);
    let tcb = &mgr.tasks[0];
    assert_eq!(tcb.task_status, TaskStatus::Ready);
    assert_eq!(tcb.heap_bottom, tcb.program_brk);
    assert_eq!(tcb.base_size, tcb.heap_bottom);
    // the piece ends one page past 0x10000; a guard page follows, then two
    // stack pages, so the user stack top sits at 0x14000
    assert_eq!(tcb.heap_bottom, 0x14000);
    let cx = tcb.get_trap_cx(&mem);
    assert_eq!(cx.sepc, 0x10000);
    assert_eq!(cx.x[2], 0x14000);
    assert_eq!(cx.kernel_satp, kernel_space.token());
    assert_eq!(cx.trap_handler, 0x2000);
    assert_eq!(tcb.task_cx.ra, 0x3000);
    assert_eq!(tcb.get_user_token(&mem), tcb.memory_set.token());
}

#[test]
fn three_tasks_interleave_in_ring_order() {
    let (mut mem, mut allocator, _ks, mut mgr) = build_tasks(3);
    let mut order = Vec::new();
    order.push(mgr.run_first_task(0));
    // task 0 runs to exit
    let r = issue_syscall(&mut mgr, &mut allocator, &mut mem, 93, [0, 0, 0], 1);
    match r.control {
        TrapControl::Switch { prev, next } => {
            assert_eq!(prev, 0);
            order.push(next);
        }
        _ => panic!("expected a switch"),
    }
    // task 1 yields once
    let r = issue_syscall(&mut mgr, &mut allocator, &mut mem, 124, [0, 0, 0], 2);
    match r.control {
        TrapControl::Switch { prev, next } => {
            assert_eq!(prev, 1);
            order.push(next);
        }
        _ => panic!("expected a switch"),
    }
    // task 2 runs to exit; the ring resumes task 1
    let r = issue_syscall(&mut mgr, &mut allocator, &mut mem, 93, [0, 0, 0], 3);
    match r.control {
        TrapControl::Switch { prev, next } => {
            assert_eq!(prev, 2);
            order.push(next);
        }
        _ => panic!("expected a switch"),
    }
    assert_eq!(order, vec![0, 1, 2, 1]);
    // task 1 exits; nothing is ready: the machine shuts down cleanly
    let r = issue_syscall(&mut mgr, &mut allocator, &mut mem, 93, [0, 0, 0], 4);
    assert!(matches!(r.control, TrapControl::Shutdown));
}

#[test]
fn sbrk_grows_then_rejects_an_overdeep_shrink() {
    let (mut mem, mut allocator, _ks, mut mgr) = build_tasks(1);
    let initial = mgr.tasks[0].program_brk;
    assert_eq!(mgr.tasks[0].heap_bottom, initial);
    let grown = mgr.tasks[0]
        .change_program_brk(&mut allocator, &mut mem, 4096)
        .unwrap();
    assert_eq!(grown, Some(initial), "growth returns the old break");
    assert_eq!(mgr.tasks[0].program_brk, initial + 4096);
    let shrunk = mgr.tasks[0]
        .change_program_brk(&mut allocator, &mut mem, -8192)
        .unwrap();
    assert_eq!(shrunk, None, "shrinking past the heap bottom fails");
    assert_eq!(
        mgr.tasks[0].program_brk,
        initial + 4096,
        "a failed shrink leaves the break where the last success put it"
    );
}

#[test]
fn sbrk_through_the_router_returns_old_break_or_minus_one() {
    let (mut mem, mut allocator, _ks, mut mgr) = build_tasks(1);
    mgr.run_first_task(0);
    let initial = mgr.tasks[0].program_brk;
    let r = syscall(&mut mgr, &mut allocator, &mut mem, 214, [4096, 0, 0], 5);
    match r {
        SyscallOutcome::Value { ret } => assert_eq!(ret, initial as i64),
        _ => panic!("expected a value"),
    }
    let r = syscall(&mut mgr, &mut allocator, &mut mem, 214, [(-8192i64) as u64, 0, 0], 6);
    match r {
        SyscallOutcome::Value { ret } => assert_eq!(ret, -1),
        _ => panic!("expected a value"),
    }
}

#[test]
fn write_hands_the_tasks_bytes_to_the_console() {
    let (mut mem, mut allocator, _ks, mut mgr) = build_tasks(1);
    mgr.run_first_task(0);
    let sp = mgr.tasks[0].heap_bottom;
    let ptr = sp - 16;
    let data: Vec<u8> = b"hello".to_vec();
    assert!(rvkernel::write_user_buffer(&mgr, &mut mem, ptr, &data));
    let r = issue_syscall(&mut mgr, &mut allocator, &mut mem, 64, [1, ptr, 5], 7);
    match (&r.control, &r.console) {
        (TrapControl::ReturnToUser, Some(bytes)) => assert_eq!(bytes.as_slice(), b"hello"),
        _ => panic!("expected console output and a return to the task"),
    }
    let cx = mgr.tasks[0].get_trap_cx(&mem);
    assert_eq!(cx.x[10], 5, "write answers the byte count");
}

#[test]
fn write_to_an_unsupported_descriptor_is_fatal() {
    let (mut mem, mut allocator, _ks, mut mgr) = build_tasks(1);
    mgr.run_first_task(0);
    let r = issue_syscall(&mut mgr, &mut allocator, &mut mem, 64, [3, 0x14000 - 16, 4], 8);
    assert!(matches!(r.control, TrapControl::Fatal));
}

#[test]
fn unknown_syscall_id_is_fatal() {
    let (mut mem, mut allocator, _ks, mut mgr) = build_tasks(1);
    mgr.run_first_task(0);
    let r = issue_syscall(&mut mgr, &mut allocator, &mut mem, 7, [0, 0, 0], 9);
    assert!(matches!(r.control, TrapControl::Fatal));
}

#[test]
fn get_time_answers_in_milliseconds() {
    let (mut mem, mut allocator, _ks, mut mgr) = build_tasks(1);
    mgr.run_first_task(0);
    let r = issue_syscall(&mut mgr, &mut allocator, &mut mem, 169, [0, 0, 0], 1234);
    assert!(matches!(r.control, TrapControl::ReturnToUser));
    let cx = mgr.tasks[0].get_trap_cx(&mem);
    assert_eq!(cx.x[10], 1234);
}

#[test]
fn task_info_fills_the_callers_buffer() {
    let (mut mem, mut allocator, _ks, mut mgr) = build_tasks(1);
    mgr.run_first_task(0);
    // count one yield-flavoured no-op first so a counter is non-zero
    let _ = issue_syscall(&mut mgr, &mut allocator, &mut mem, 169, [0, 0, 0], 1);
    let sp = mgr.tasks[0].heap_bottom;
    let buf_ptr = sp - 8192; // the bottom of the user stack
    let r = issue_syscall(&mut mgr, &mut allocator, &mut mem, 410, [169, buf_ptr, 0], 2);
    assert!(matches!(r.control, TrapControl::ReturnToUser));
    let cx = mgr.tasks[0].get_trap_cx(&mem);
    assert_eq!(cx.x[10], 0, "a recognized id answers zero");
    let segs =
        rvkernel::translated_byte_buffer(&mgr.tasks[0].memory_set.page_table, &mem, buf_ptr, 16
            + 8 * 520)
        .unwrap();
    let bytes = rvkernel::read_buffer(&mem, &segs);
    assert_eq!(bytes[0], 2, "the asking task reads itself as running");
    // the counter of the queried id sits at 8 bytes per id past the header
    let at = 8 + 8 * 169;
    assert_eq!(bytes[at], 1, "the one call with id 169 was recorded");
    let at410 = 8 + 8 * 410;
    assert_eq!(bytes[at410], 1, "the running task-info call itself was counted");
}

#[test]
fn task_info_rejects_an_unknown_id() {
    let (mut mem, mut allocator, _ks, mut mgr) = build_tasks(1);
    mgr.run_first_task(0);
    let r = issue_syscall(&mut mgr, &mut allocator, &mut mem, 410, [7, 0x14000 - 16, 0], 3);
    assert!(matches!(r.control, TrapControl::ReturnToUser));
    let cx = mgr.tasks[0].get_trap_cx(&mem);
    assert_eq!(cx.x[10] as i64, -1);
}

#[test]
fn timer_tick_preempts_and_reprograms_strictly_later() {
    let (mut mem, mut allocator, _ks, mut mgr) = build_tasks(2);
    mgr.run_first_task(0);
    let fired: u64 = 1_000_000;
    let r = trap_handler(
        &mut mgr,
        &mut allocator,
        &mut mem,
        true,
        TrapCause::SupervisorTimer,
        0,
        1,
        fired,
    );
    let deadline = r.timer_deadline.expect("the timer is reprogrammed");
    assert!(deadline > fired, "the next deadline is strictly later");
    assert!(matches!(r.control, TrapControl::Switch { prev: 0, next: 1 }));
    assert_eq!(mgr.tasks[0].task_status, TaskStatus::Ready);
}

#[test]
fn faults_kill_only_the_offending_task() {
    let (mut mem, mut allocator, _ks, mut mgr) = build_tasks(2);
    mgr.run_first_task(0);
    let r = trap_handler(
        &mut mgr,
        &mut allocator,
        &mut mem,
        true,
        TrapCause::StorePageFault,
        0xdead,
        1,
        1_000_000,
    );
    assert!(r.killed);
    assert!(matches!(r.control, TrapControl::Switch { prev: 0, next: 1 }));
    assert_eq!(mgr.tasks[0].task_status, TaskStatus::Exited);
    assert_eq!(mgr.tasks[1].task_status, TaskStatus::Running);
}

#[test]
fn kernel_mode_trap_tolerates_only_the_timer() {
    let (mut mem, mut allocator, _ks, mut mgr) = build_tasks(1);
    mgr.run_first_task(0);
    let r = trap_handler(
        &mut mgr,
        &mut allocator,
        &mut mem,
        false,
        TrapCause::SupervisorTimer,
        0,
        1,
        500,
    );
    assert!(matches!(r.control, TrapControl::ReturnToKernel));
    assert!(r.timer_deadline.unwrap() > 500);
    let r = trap_handler(
        &mut mgr,
        &mut allocator,
        &mut mem,
        false,
        TrapCause::StoreFault,
        0,
        1,
        500,
    );
    assert!(matches!(r.control, TrapControl::Fatal));
}

#[test]
fn clock_readings_never_go_backwards() {
    let t = 50_000_000u64;
    let first = get_time_ms(t);
    let second = get_time_ms(t);
    assert!(second >= first, "no tick in between: non-decreasing");
    assert_eq!(first, 4000, "12500 ticks make one millisecond");
    assert!(get_time_ms(t + 12_500) >= first);
    let fired = 1_000_000u64;
    let d1 = set_next_trigger(fired);
    assert!(d1 > fired);
    assert_eq!(d1, fired + 125_000);
    let d2 = set_next_trigger(d1);
    assert!(d2 > d1, "each reprogramming lands strictly later");
}

#[test]
fn parse_accepts_the_image_and_rejects_bad_magic() {
    let img = tiny_image();
    let parsed = rvkernel::elf::parse_app_image(img.as_slice()).expect("the image is sane");
    assert_eq!(parsed.entry, 0x10000);
    assert_eq!(parsed.segments.len(), 1);
    assert_eq!(parsed.segments[0].start_va, 0x10000);
    assert_eq!(parsed.segments[0].mem_size, 0x1000);
    assert_eq!(parsed.segments[0].file_size, 6);
    assert_eq!(parsed.segments[0].flags, 7);
    let mut bad = img.clone();
    bad[1] = 0x00;
    assert!(rvkernel::elf::parse_app_image(bad.as_slice()).is_none());
    let mut unaligned = img.clone();
    put_le(&mut unaligned, 80, 8, 0x10001);
    assert!(rvkernel::elf::parse_app_image(unaligned.as_slice()).is_none());
}

#[test]
fn segment_bytes_land_in_the_task_image() {
    let (mut mem, mut allocator) = fresh_memory();
    let img = tiny_image();
    let built = MemorySet::from_elf(&mut allocator, &mut mem, img.as_slice(), PhysPageNum(0x900))
        .unwrap();
    let ms = built.0;
    let pte = ms.translate(&mem, VirtPageNum(0x10)).expect("the piece is mapped");
    let frame = pte.ppn().0;
    assert_eq!(mem.read_byte(frame, 0), 0x13);
    assert_eq!(mem.read_byte(frame, 4), 0xaa);
    assert_eq!(mem.read_byte(frame, 5), 0xbb);
    assert_eq!(mem.read_byte(frame, 6), 0, "past the provided bytes reads as zero");
    assert_eq!(built.2, 0x10000);
}

#[test]
fn kernel_init_builds_the_kernel_space() {
    let k = rvkernel::init(
        0x1000, 0x2000, // code
        0x2000, 0x3000, // read-only data
        0x3000, 0x4000, // data
        0x4000, 0x5000, // zero-initialized data
        0x5000, // end of the kernel image
        0x5000 + 512 * 4096, // end of usable memory
        PhysPageNum(0x900),
    )
    .unwrap();
    let token = k.kernel_space.token();
    assert_eq!(token >> 60, 8);
    // code is mapped identically
    let pte = k.kernel_space.translate(&k.mem, VirtPageNum(1)).expect("code is mapped");
    assert_eq!(pte.ppn().0, 1);
    assert!(pte.executable());
    let pte = k.kernel_space.translate(&k.mem, VirtPageNum(3)).expect("data is mapped");
    assert!(pte.writable());
    assert!(!pte.executable());
}

#[test]
fn contexts_start_clean() {
    let z = rvkernel::TaskContext::zero_init();
    assert_eq!(z.ra, 0);
    assert_eq!(z.sp, 0);
    assert!(z.s.iter().all(|v| *v == 0));
    let g = rvkernel::TaskContext::goto_trap_return(0x3000, 0x8000);
    assert_eq!(g.ra, 0x3000);
    assert_eq!(g.sp, 0x8000);
    let cx = rvkernel::TrapContext::app_init_context(0x10000, 0x14000, 0x77, 0x88, 0x99, 0x100);
    assert_eq!(cx.sepc, 0x10000);
    assert_eq!(cx.x[2], 0x14000);
    assert_eq!(cx.kernel_satp, 0x77);
    assert_eq!(cx.kernel_sp, 0x88);
    assert_eq!(cx.trap_handler, 0x99);
    assert_eq!(cx.sstatus & 0x100, 0, "the previous-privilege bit marks user mode");
}

#[test]
fn exclusive_cell_hands_out_one_view() {
    let mut cell = rvkernel::UPSafeCell::new(41u64);
    {
        let v = cell.exclusice_access();
        *v += 1;
    }
    assert_eq!(*cell.exclusice_access(), 42);
}

#[test]
fn yield_and_get_time_answer_directly() {
    let y = rvkernel::sys_yield();
    assert!(matches!(y, SyscallOutcome::SwitchOut));
    match rvkernel::sys_get_time(77) {
        SyscallOutcome::Value { ret } => assert_eq!(ret, 77),
        _ => panic!("expected a value"),
    }
}

#[test]
fn direct_write_and_task_info_behave_like_the_router() {
    let (mut mem, _allocator, _ks, mut mgr) = build_tasks(1);
    mgr.run_first_task(0);
    let sp = mgr.tasks[0].heap_bottom;
    let ptr = sp - 32;
    let data = b"abc".to_vec();
    assert!(rvkernel::write_user_buffer(&mgr, &mut mem, ptr, &data));
    match rvkernel::sys_write(&mgr, &mem, 1, ptr, 3) {
        SyscallOutcome::Output { bytes, ret } => {
            assert_eq!(bytes, data);
            assert_eq!(ret, 3);
        }
        _ => panic!("expected console output"),
    }
    assert!(matches!(rvkernel::sys_write(&mgr, &mem, 0, ptr, 3), SyscallOutcome::Fatal));
    match rvkernel::sys_task_info(&mgr, &mut mem, 9999, ptr) {
        SyscallOutcome::Value { ret } => assert_eq!(ret, -1),
        _ => panic!("expected the failure sentinel"),
    }
}

#[test]
fn suspend_and_exit_drive_the_ring() {
    let (_mem, _allocator, _ks, mut mgr) = build_tasks(2);
    mgr.run_first_task(0);
    let p = mgr.suspend_current_and_run_next(1).expect("task 1 is ready");
    assert_eq!(p, (0, 1));
    assert_eq!(mgr.tasks[0].task_status, TaskStatus::Ready);
    let p = mgr.exit_current_and_run_next(2).expect("task 0 is ready again");
    assert_eq!(p, (1, 0));
    assert_eq!(mgr.tasks[1].task_status, TaskStatus::Exited);
    assert!(mgr.exit_current_and_run_next(3).is_none());
}

#[test]
fn yield_stores_zero_and_advances_the_saved_pc() {
    let (mut mem, mut allocator, _ks, mut mgr) = build_tasks(2);
    mgr.run_first_task(0);
    let pc_before = mgr.tasks[0].get_trap_cx(&mem).sepc;
    let r = issue_syscall(&mut mgr, &mut allocator, &mut mem, 124, [7, 7, 7], 1);
    assert!(matches!(r.control, TrapControl::Switch { prev: 0, next: 1 }));
    let cx = mgr.tasks[0].get_trap_cx(&mem);
    assert_eq!(cx.x[10], 0, "the yield syscall answers zero");
    assert_eq!(cx.sepc, pc_before + 4, "the saved pc moves past the call");
    assert_eq!(mgr.tasks[0].task_status, TaskStatus::Ready);
}
