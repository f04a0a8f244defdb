use vstd::prelude::*;

verus! {

/// The `sstatus` bit recording which privilege level a trap came from;
/// clear means user mode.
pub const SSTATUS_SPP: u64 = 0x100;

/// Index of the stack-pointer slot among the general registers.
pub const REG_SP: usize = 2;
/// Index of the first argument / return-value register.
pub const REG_A0: usize = 10;
/// Index of the second argument register.
pub const REG_A1: usize = 11;
/// Index of the third argument register.
pub const REG_A2: usize = 12;
/// Index of the syscall-id register.
pub const REG_A7: usize = 17;

/// Everything saved about a task at the moment a trap fires: its general
/// registers, the privilege state, the resume address, and the kernel-side
/// values the trampoline needs to re-enter the kernel.
#[derive(Clone, Copy, Debug)]
pub struct TrapContext {
    /// General registers x0 through x31.
    pub x: [u64; 32],
    /// Saved processor status word.
    pub sstatus: u64,
    /// Address at which user execution resumes.
    pub sepc: u64,
    /// Address-space token of the kernel space.
    pub kernel_satp: u64,
    /// Top of the owning task's kernel stack.
    pub kernel_sp: u64,
    /// Address of the kernel's trap dispatch entry.
    pub trap_handler: u64,
}

impl TrapContext {
    /// Sets the saved user stack pointer.
    pub fn set_sp(&mut self, sp: u64)
        ensures
            final(self).x@ == old(self).x@.update(REG_SP as int, sp),
            final(self).sstatus == old(self).sstatus,
            final(self).sepc == old(self).sepc,
            final(self).kernel_satp == old(self).kernel_satp,
            final(self).kernel_sp == old(self).kernel_sp,
            final(self).trap_handler == old(self).trap_handler,
    {
        self.x[REG_SP] = sp;
    }

    /// The initial trap context of a task: all registers clear but the user
    /// stack pointer, the previous-privilege bit marking user mode, and the
    /// resume address at the task's entry point.  `sstatus` is the current
    /// status word as the platform reports it; only its previous-privilege
    /// bit is rewritten.
    pub fn app_init_context(
        entry: u64,
        sp: u64,
        kernel_satp: u64,
        kernel_sp: u64,
        trap_handler: u64,
        sstatus: u64,
    ) -> (r: TrapContext)
        ensures
            r.x@.len() == 32,
            forall|i: int| 0 <= i < 32 && i != REG_SP ==> r.x@[i] == 0,
            r.x@[REG_SP as int] == sp,
            r.sstatus == sstatus & (!SSTATUS_SPP),
            r.sepc == entry,
            r.kernel_satp == kernel_satp,
            r.kernel_sp == kernel_sp,
            r.trap_handler == trap_handler,
    {
        let mut cx = TrapContext {
            x: [0; 32],
            sstatus: sstatus & (!SSTATUS_SPP),
            sepc: entry,
            kernel_satp,
            kernel_sp,
            trap_handler,
        };
        cx.set_sp(sp);
        cx
    }
}

} // verus!
