use vstd::prelude::*;

use crate::address::{PhysPageNum, VPN_MASK};
use crate::frame_allocator::{within, StackFrameAllocator};
use crate::memory_set::{build_inv, MemorySet};
use crate::page_table::PagingError;
use crate::phys_mem::PhysMemory;

verus! {

/// The kernel's memory machinery, created once at boot: the pool of
/// physical pages, the frame allocator over the free part of it, and the
/// kernel's own address space.  Built by `init` before anything else runs
/// and never reinitialized.
pub struct Kernel {
    /// The pool of physical pages.
    pub mem: PhysMemory,
    /// The allocator over the free pages above the kernel image.
    pub allocator: StackFrameAllocator,
    /// The kernel's own address space.
    pub kernel_space: MemorySet,
}

impl Kernel {
    /// Everything `init` set up still holds together.
    pub open spec fn wf(&self) -> bool {
        &&& self.mem.wf()
        &&& self.allocator@.wf()
        &&& within(self.allocator@, &self.mem)
        &&& self.kernel_space.wf(&self.mem)
        &&& forall|q: u64|
            self.kernel_space.owns_page(q) ==> #[trigger] self.allocator@.live().contains(q)
    }
}

/// Sets the memory machinery up: backs the pages from `ekernel` up to
/// `mem_end`, hands the allocator the free ones, and builds the kernel's
/// address space over the given section bounds.  This runs once, before
/// any task exists.
pub fn init(
    stext: u64,
    etext: u64,
    srodata: u64,
    erodata: u64,
    sdata: u64,
    edata: u64,
    sbss: u64,
    ebss: u64,
    ekernel: u64,
    mem_end: u64,
    strampoline: PhysPageNum,
) -> (r: Result<Kernel, PagingError>)
    requires
        stext / crate::config::PAGE_SIZE <= (etext + crate::config::PAGE_SIZE - 1) / (
        crate::config::PAGE_SIZE as int) <= srodata / crate::config::PAGE_SIZE,
        srodata / crate::config::PAGE_SIZE <= (erodata + crate::config::PAGE_SIZE - 1) / (
        crate::config::PAGE_SIZE as int) <= sdata / crate::config::PAGE_SIZE,
        sdata / crate::config::PAGE_SIZE <= (edata + crate::config::PAGE_SIZE - 1) / (
        crate::config::PAGE_SIZE as int) <= sbss / crate::config::PAGE_SIZE,
        sbss / crate::config::PAGE_SIZE <= (ebss + crate::config::PAGE_SIZE - 1) / (
        crate::config::PAGE_SIZE as int) <= ekernel / crate::config::PAGE_SIZE,
        ekernel / crate::config::PAGE_SIZE <= (mem_end + crate::config::PAGE_SIZE - 1) / (
        crate::config::PAGE_SIZE as int) <= VPN_MASK,
        etext <= u64::MAX - crate::config::PAGE_SIZE,
        erodata <= u64::MAX - crate::config::PAGE_SIZE,
        edata <= u64::MAX - crate::config::PAGE_SIZE,
        ebss <= u64::MAX - crate::config::PAGE_SIZE,
        mem_end <= u64::MAX - crate::config::PAGE_SIZE,
        ekernel % crate::config::PAGE_SIZE == 0,
        ekernel <= mem_end,
        strampoline.0 <= crate::address::PPN_MASK,
    ensures
        r matches Ok(k) ==> k.wf() && k.kernel_space.trampoline == Some(strampoline),
        r is Err ==> r == Err::<Kernel, PagingError>(PagingError::OutOfFrames),
        (mem_end + crate::config::PAGE_SIZE - 1) / (crate::config::PAGE_SIZE as int) - ekernel
            / crate::config::PAGE_SIZE >= crate::memory_set::kernel_space_budget(stext, etext,
            srodata, erodata, sdata, edata, sbss, ebss, ekernel, mem_end) ==> r is Ok,
        r matches Ok(k) ==> {
            let areas = k.kernel_space.areas@;
            &&& areas.len() == 5
            &&& areas[0].map_type is Identical
            &&& areas[0].vpn_range.start_val() == stext / crate::config::PAGE_SIZE
            &&& areas[0].vpn_range.end_val() == (etext + crate::config::PAGE_SIZE - 1) / (
            crate::config::PAGE_SIZE as int)
            &&& areas[0].map_perm.bits == (crate::memory_set::MAP_PERM_R
                | crate::memory_set::MAP_PERM_X)
            &&& areas[1].vpn_range.start_val() == srodata / crate::config::PAGE_SIZE
            &&& areas[1].map_perm.bits == crate::memory_set::MAP_PERM_R
            &&& areas[2].vpn_range.start_val() == sdata / crate::config::PAGE_SIZE
            &&& areas[2].map_perm.bits == (crate::memory_set::MAP_PERM_R
                | crate::memory_set::MAP_PERM_W)
            &&& areas[3].vpn_range.start_val() == sbss / crate::config::PAGE_SIZE
            &&& areas[3].map_perm.bits == (crate::memory_set::MAP_PERM_R
                | crate::memory_set::MAP_PERM_W)
            &&& areas[4].map_type is Identical
            &&& areas[4].vpn_range.start_val() == ekernel / crate::config::PAGE_SIZE
            &&& areas[4].vpn_range.end_val() == (mem_end + crate::config::PAGE_SIZE - 1) / (
            crate::config::PAGE_SIZE as int)
            &&& areas[4].map_perm.bits == (crate::memory_set::MAP_PERM_R
                | crate::memory_set::MAP_PERM_W)
        },
{
    let base = ekernel / crate::config::PAGE_SIZE;
    let count_pages = (mem_end + (crate::config::PAGE_SIZE - 1)) / crate::config::PAGE_SIZE
        - base;
    let mut mem = PhysMemory::new(base, count_pages as usize);
    let mut allocator = StackFrameAllocator::new();
    allocator.init(PhysPageNum(base), PhysPageNum(base + count_pages));
    let kernel_space = match MemorySet::new_kernel(
        &mut allocator,
        &mut mem,
        stext,
        etext,
        srodata,
        erodata,
        sdata,
        edata,
        sbss,
        ebss,
        ekernel,
        mem_end,
        strampoline,
    ) {
        Err(e) => {
            return Err(e);
        },
        Ok(ms) => ms,
    };
    Ok(Kernel { mem, allocator, kernel_space })
}

} // verus!
