use vstd::prelude::*;

use crate::address::{PhysPageNum, VirtAddr, VirtPageNum, VPNRange, VPN_MASK};
use crate::config::{PAGE_BYTES, PAGE_SIZE, USER_STACK_SIZE};
use crate::frame_allocator::{frame_alloc, within, FrameTracker, StackFrameAllocator};
use crate::page_table::{
    spec_nodes_needed, spec_translate, PTEFlags, PageTable, PageTableEntry, PagingError, PTE_V,
};
use crate::phys_mem::PhysMemory;

verus! {

/// Read permission of a mapped region.
pub const MAP_PERM_R: u8 = 0x02;
/// Write permission of a mapped region.
pub const MAP_PERM_W: u8 = 0x04;
/// Execute permission of a mapped region.
pub const MAP_PERM_X: u8 = 0x08;
/// User-mode accessibility of a mapped region.
pub const MAP_PERM_U: u8 = 0x10;

/// The permission bits of one mapped region; they sit at the same positions
/// as the matching page-table-entry flags.
#[derive(Clone, Copy, Debug, PartialEq, Eq, Structural)]
pub struct MapPermission {
    /// The raw permission bits.
    pub bits: u8,
}

impl MapPermission {
    /// Permissions with the given raw bits.
    pub fn new(bits: u8) -> (r: Self)
        ensures
            r.bits == bits,
    {
        Self { bits }
    }
}

/// How a region maps its pages.
#[derive(Clone, Copy, Debug, PartialEq, Eq, Structural)]
pub enum MapType {
    /// Each page maps to the physical page of the same number.
    Identical,
    /// Each page is backed by a freshly allocated frame the region owns.
    Framed,
}

/// One contiguous range of virtual pages with uniform permissions and one
/// mapping mode.
pub struct MapArea {
    /// The pages the region covers.
    pub vpn_range: VPNRange,
    /// The owned frames backing the pages, in page order; empty for an
    /// identically mapped region.
    pub data_frames: Vec<FrameTracker>,
    /// How the region maps its pages.
    pub map_type: MapType,
    /// The region's permissions.
    pub map_perm: MapPermission,
}

/// The page `k` pages past the start of `data`, padded with zeroes.
pub open spec fn page_slice(data: Seq<u8>, k: int) -> Seq<u8> {
    Seq::new(
        PAGE_BYTES as nat,
        |i: int|
            if k * PAGE_BYTES + i < data.len() {
                data[k * PAGE_BYTES + i]
            } else {
                0u8
            },
    )
}

impl MapArea {
    /// The region covers a sane range below the trampoline page, and a
    /// framed region owns exactly one frame per page.
    pub open spec fn area_wf(&self) -> bool {
        &&& self.vpn_range.start_val() <= self.vpn_range.end_val()
        &&& self.vpn_range.end_val() <= VPN_MASK as int
        &&& self.map_type is Framed ==> self.data_frames@.len() == self.vpn_range.end_val()
            - self.vpn_range.start_val()
        &&& self.map_type is Identical ==> self.data_frames@.len() == 0
    }

    /// Whether the region covers page `w`.
    pub open spec fn contains(&self, w: u64) -> bool {
        self.vpn_range.start_val() <= w < self.vpn_range.end_val()
    }

    /// The entry that page `w` of this region must translate to.
    pub open spec fn entry_for(&self, w: u64) -> PageTableEntry {
        match self.map_type {
            MapType::Framed => PageTableEntry {
                bits: self.data_frames@[w - self.vpn_range.start_val()].ppn.0 << 10u64 | ((
                self.map_perm.bits | PTE_V) as u64),
            },
            MapType::Identical => PageTableEntry {
                bits: w << 10u64 | ((self.map_perm.bits | PTE_V) as u64),
            },
        }
    }

    /// Every page of the region translates to its backing page with the
    /// region's permissions plus the valid bit.
    pub open spec fn mapped(&self, mem: &PhysMemory, root: u64) -> bool {
        forall|w: u64|
            self.contains(w) ==> #[trigger] spec_translate(mem, root, w) == Some(self.entry_for(w))
    }
}

/// A complete address space: an ordered collection of mapped regions plus
/// the page table realizing them, and possibly the trampoline mapping at
/// the very top page.
pub struct MemorySet {
    /// The translation structure of this space.
    pub page_table: PageTable,
    /// The mapped regions, in insertion order.
    pub areas: Vec<MapArea>,
    /// The physical page the top virtual page maps to, once the trampoline
    /// is installed.
    pub trampoline: Option<PhysPageNum>,
}

impl MemorySet {
    /// Whether one of this space's regions owns frame `q` as a data page.
    pub open spec fn frames_contain(&self, q: u64) -> bool {
        exists|i: int, k: int|
            0 <= i < self.areas@.len() && 0 <= k < self.areas@[i].data_frames@.len()
                && self.areas@[i].data_frames@[k].ppn.0 == q
    }

    /// Whether this space holds page `q`, as a table node or a data frame.
    pub open spec fn owns_page(&self, q: u64) -> bool {
        self.page_table.owned().contains(q) || self.frames_contain(q)
    }

    /// The pages this space holds.
    pub open spec fn owned_pages(&self) -> Set<u64> {
        Set::new(|q: u64| self.owns_page(q))
    }

    /// Whether page `w` is accounted for by a region or the trampoline.
    pub open spec fn covers(&self, w: u64) -> bool {
        (exists|i: int| 0 <= i < self.areas@.len() && (#[trigger] self.areas@[i]).contains(w)) || (
        self.trampoline is Some && w == VPN_MASK)
    }

    /// The space is intact in `mem`: the page table is well formed, every
    /// region is sane and fully mapped, every owned data frame is a distinct
    /// data page apart from the table nodes, nothing except the regions and
    /// the trampoline is mapped, and the trampoline, once installed, maps
    /// the top page.
    pub open spec fn wf(&self, mem: &PhysMemory) -> bool {
        let root = self.page_table.root_ppn.0;
        &&& self.page_table.wf(mem)
        &&& forall|i: int| 0 <= i < self.areas@.len() ==> (#[trigger] self.areas@[i]).area_wf()
        &&& forall|i: int|
            0 <= i < self.areas@.len() ==> (#[trigger] self.areas@[i]).mapped(mem, root)
        &&& forall|i: int, k: int|
            #![trigger self.areas@[i].data_frames@[k]]
            0 <= i < self.areas@.len() && 0 <= k < self.areas@[i].data_frames@.len() ==> (
            mem.is_data(self.areas@[i].data_frames@[k].ppn.0) || mem.is_trap(
                self.areas@[i].data_frames@[k].ppn.0,
            )) && !self.page_table.owned().contains(self.areas@[i].data_frames@[k].ppn.0)
        &&& forall|i: int, k: int, i2: int, k2: int|
            #![trigger self.areas@[i].data_frames@[k], self.areas@[i2].data_frames@[k2]]
            0 <= i < self.areas@.len() && 0 <= k < self.areas@[i].data_frames@.len() && 0 <= i2
                < self.areas@.len() && 0 <= k2 < self.areas@[i2].data_frames@.len() && (i != i2 || k
                != k2) ==> self.areas@[i].data_frames@[k].ppn.0
                != self.areas@[i2].data_frames@[k2].ppn.0
        &&& forall|i: int, j: int, w: u64|
            #![trigger self.areas@[i].contains(w), self.areas@[j].contains(w)]
            0 <= i < self.areas@.len() && 0 <= j < self.areas@.len() && i != j
                && self.areas@[i].contains(w) ==> !self.areas@[j].contains(w)
        &&& forall|w: u64|
            w <= VPN_MASK && (#[trigger] spec_translate(mem, root, w)) is Some ==> self.covers(w)
        &&& self.trampoline matches Some(tp) ==> spec_translate(mem, root, VPN_MASK) == Some(
            PageTableEntry { bits: tp.0 << 10u64 | ((MAP_PERM_R | MAP_PERM_X | PTE_V) as u64) },
        )
    }

    /// The address-space token naming this space to the hardware.
    pub fn token(&self) -> (r: u64)
        ensures
            r == self.page_table.spec_token(),
    {
        self.page_table.token()
    }

    /// Reads the valid leaf entry for `vpn`, if any.
    pub fn translate(&self, mem: &PhysMemory, vpn: VirtPageNum) -> (r: Option<PageTableEntry>)
        requires
            mem.wf(),
        ensures
            r == spec_translate(mem, self.page_table.root_ppn.0, vpn.0),
    {
        self.page_table.translate(mem, vpn)
    }

    /// An empty address space with a fresh page table and no regions.
    pub fn new_bare(allocator: &mut StackFrameAllocator, mem: &mut PhysMemory) -> (r: Result<
        MemorySet,
        PagingError,
    >)
        requires
            old(allocator)@.wf(),
            within(old(allocator)@, old(mem)),
            old(mem).wf(),
        ensures
            final(allocator)@.wf(),
            within(final(allocator)@, final(mem)),
            final(mem).wf(),
            final(mem).base == old(mem).base,
            final(mem).pages@.len() == old(mem).pages@.len(),
            final(allocator)@.free_count() >= old(allocator)@.free_count() - 1,
            r is Err <==> old(allocator)@.free_count() == 0,
            r is Err ==> *final(mem) == *old(mem) && final(allocator)@ == old(allocator)@,
            r matches Ok(ms) ==> {
                &&& ms.wf(final(mem))
                &&& ms.areas@.len() == 0
                &&& ms.trampoline is None
                &&& forall|q: u64|
                    ms.owns_page(q) ==> final(allocator)@.live().contains(q) && !old(
                        allocator,
                    )@.live().contains(q)
                &&& forall|q: u64|
                    old(allocator)@.live().contains(q) ==> final(allocator)@.live().contains(q)
                &&& forall|q: u64|
                    final(allocator)@.live().contains(q) ==> old(allocator)@.live().contains(q)
                        || ms.owns_page(q)
                &&& final(mem).agrees_except(&*old(mem), ms.owned_pages())
                &&& forall|w: u64|
                    spec_translate(final(mem), ms.page_table.root_ppn.0, w) is None
            },
    {
        proof {
            crate::frame_allocator::lemma_alloc_step(allocator@);
        }
        match PageTable::new(allocator, mem) {
            Err(e) => Err(e),
            Ok(pt) => {
                let ms = MemorySet { page_table: pt, areas: Vec::new(), trampoline: None };
                proof {
                    assert forall|q: u64| ms.owns_page(q) implies allocator@.live().contains(q)
                        && !old(allocator)@.live().contains(q) by {
                        assert(!ms.frames_contain(q));
                        assert(ms.page_table.owned().contains(q));
                        assert(q == ms.page_table.root_ppn.0);
                    }
                    assert forall|q: u64| !ms.owned_pages().contains(q) implies mem.page(q) == old(
                        mem,
                    ).page(q) by {
                        assert(!ms.owns_page(q));
                        assert(q != ms.page_table.root_ppn.0);
                    }
                    assert(ms.wf(mem));
                }
                Ok(ms)
            },
        }
    }
}

/// Whether some tracker in `frames` owns page `q`.
pub open spec fn frames_ppn_contains(frames: Seq<FrameTracker>, q: u64) -> bool {
    exists|k: int| 0 <= k < frames.len() && frames[k].ppn.0 == q
}

/// The bytes an optional image hands a region; nothing reads as empty.
pub open spec fn opt_bytes(data: Option<&[u8]>) -> Seq<u8> {
    match data {
        Some(d) => d@,
        None => Seq::empty(),
    }
}

/// The entry page `w` of a region being built must translate to.
pub open spec fn pushed_entry(
    mt: MapType,
    perm: MapPermission,
    frames: Seq<FrameTracker>,
    start: u64,
    w: u64,
) -> PageTableEntry {
    match mt {
        MapType::Framed => PageTableEntry {
            bits: frames[w - start].ppn.0 << 10u64 | ((perm.bits | PTE_V) as u64),
        },
        MapType::Identical => PageTableEntry { bits: w << 10u64 | ((perm.bits | PTE_V) as u64) },
    }
}

/// Everything that holds while a region covering `[start, end)` is being
/// built page by page: `k` pages are mapped and backed so far, everything
/// older is untouched, and every involved page is accounted for against
/// the allocator.
pub open spec fn push_inv(
    ms0: MemorySet,
    pt: PageTable,
    m0: PhysMemory,
    mem: PhysMemory,
    a0: crate::frame_allocator::AllocView,
    av: crate::frame_allocator::AllocView,
    frames: Seq<FrameTracker>,
    mt: MapType,
    perm: MapPermission,
    dseq: Seq<u8>,
    start: u64,
    end: u64,
    k: int,
) -> bool {
    let root = ms0.page_table.root_ppn.0;
    &&& ms0.wf(&m0)
    &&& m0.wf()
    &&& pt.wf(&mem)
    &&& mem.wf()
    &&& av.wf()
    &&& within(av, &mem)
    &&& mem.base == m0.base
    &&& mem.pages@.len() == m0.pages@.len()
    &&& pt.root_ppn == ms0.page_table.root_ppn
    &&& 0 <= k
    &&& start + k <= end
    &&& end <= VPN_MASK
    &&& forall|q: u64| ms0.owns_page(q) ==> #[trigger] a0.live().contains(q)
    &&& forall|i: int|
        0 <= i < ms0.areas@.len() ==> (#[trigger] ms0.areas@[i]).vpn_range.end_val() <= start
            || ms0.areas@[i].vpn_range.start_val() >= end
    &&& (mt is Framed ==> frames.len() == k)
    &&& (mt is Identical ==> frames.len() == 0)
    &&& forall|w: u64|
        w <= VPN_MASK && !(start <= w < start + k) ==> #[trigger] spec_translate(&mem, root, w)
            == spec_translate(&m0, root, w)
    &&& forall|w: u64|
        start <= w < start + k ==> #[trigger] spec_translate(&mem, root, w) == Some(
            pushed_entry(mt, perm, frames, start, w),
        )
    &&& (mt is Framed ==> forall|k1: int|
        0 <= k1 < k ==> mem.is_data(#[trigger] frames[k1].ppn.0) && mem.bytes(frames[k1].ppn.0)
            == page_slice(dseq, k1) && !pt.owned().contains(frames[k1].ppn.0)
            && !ms0.owns_page(frames[k1].ppn.0) && !a0.live().contains(frames[k1].ppn.0)
            && av.live().contains(frames[k1].ppn.0) && mem.in_range(frames[k1].ppn.0))
    &&& forall|k1: int, k2: int|
        #![trigger frames[k1], frames[k2]]
        0 <= k1 < frames.len() && 0 <= k2 < frames.len() && k1 != k2 ==> frames[k1].ppn.0
            != frames[k2].ppn.0
    &&& forall|q: u64|
        ms0.page_table.owned().contains(q) ==> #[trigger] pt.owned().contains(q)
    &&& forall|q: u64|
        #[trigger] pt.owned().contains(q) ==> ms0.page_table.owned().contains(q)
            || !a0.live().contains(q)
    &&& forall|q: u64|
        pt.owned().contains(q) || frames_ppn_contains(frames, q) || ms0.owns_page(q)
            ==> #[trigger] av.live().contains(q)
    &&& forall|q: u64| a0.live().contains(q) ==> #[trigger] av.live().contains(q)
    &&& forall|q: u64|
        #[trigger] av.live().contains(q) ==> a0.live().contains(q) || pt.owned().contains(q)
            || frames_ppn_contains(frames, q)
    &&& forall|q: u64|
        a0.live().contains(q) && !pt.owned().contains(q) && !frames_ppn_contains(frames, q)
            ==> #[trigger] mem.page(q) == m0.page(q)
}

/// Appending the region built so far to the space restores the full
/// invariant: every region is mapped and backed, nothing else translates,
/// and every held page is live.
proof fn lemma_push_area_final(
    ms0: MemorySet,
    post: MemorySet,
    m0: PhysMemory,
    mem: PhysMemory,
    a0: crate::frame_allocator::AllocView,
    av: crate::frame_allocator::AllocView,
    area: MapArea,
    mt: MapType,
    perm: MapPermission,
    dseq: Seq<u8>,
    start: u64,
    end: u64,
    k: int,
)
    requires
        push_inv(ms0, post.page_table, m0, mem, a0, av, area.data_frames@, mt, perm, dseq, start,
            end, k),
        area.vpn_range.start_val() == start,
        area.vpn_range.end_val() == start + k,
        area.map_type == mt,
        area.map_perm == perm,
        post.areas@ == ms0.areas@.push(area),
        post.trampoline == ms0.trampoline,
    ensures
        post.wf(&mem),
        forall|q: u64| ms0.owns_page(q) ==> #[trigger] post.owns_page(q),
        forall|q: u64|
            #[trigger] post.owns_page(q) ==> ms0.owns_page(q) || !a0.live().contains(q),
        forall|q: u64| #[trigger] post.owns_page(q) ==> av.live().contains(q),
        forall|q: u64|
            #[trigger] av.live().contains(q) ==> a0.live().contains(q) || post.owns_page(q),
        forall|q: u64|
            a0.live().contains(q) && !post.owns_page(q) ==> #[trigger] mem.page(q) == m0.page(q),
{
    let root = ms0.page_table.root_ppn.0;
    let old_n = ms0.areas@.len() as int;
    let frames = area.data_frames@;
    // ownership of the grown space, in both directions
    assert forall|q: u64| ms0.owns_page(q) implies #[trigger] post.owns_page(q) by {
        if ms0.frames_contain(q) {
            let (i, k1) = choose|i: int, k1: int|
                0 <= i < ms0.areas@.len() && 0 <= k1 < ms0.areas@[i].data_frames@.len()
                    && ms0.areas@[i].data_frames@[k1].ppn.0 == q;
            assert(post.areas@[i] == ms0.areas@[i]);
            assert(post.areas@[i].data_frames@[k1].ppn.0 == q);
        }
    }
    assert forall|q: u64| frames_ppn_contains(frames, q) implies #[trigger] post.owns_page(q) by {
        let k1 = choose|k1: int| 0 <= k1 < frames.len() && frames[k1].ppn.0 == q;
        assert(post.areas@[old_n].data_frames@[k1].ppn.0 == q);
    }
    assert forall|q: u64| #[trigger] post.owns_page(q) implies (ms0.owns_page(q)
        || frames_ppn_contains(frames, q) || post.page_table.owned().contains(q)) by {
        if post.frames_contain(q) {
            let (i, k1) = choose|i: int, k1: int|
                0 <= i < post.areas@.len() && 0 <= k1 < post.areas@[i].data_frames@.len()
                    && post.areas@[i].data_frames@[k1].ppn.0 == q;
            if i < old_n {
                assert(ms0.areas@[i].data_frames@[k1].ppn.0 == q);
            } else {
                assert(frames[k1].ppn.0 == q);
            }
        }
    }
    // old frames are untouched data pages apart from the new nodes
    assert forall|i: int, k1: int|
        #![trigger ms0.areas@[i].data_frames@[k1]]
        0 <= i < old_n && 0 <= k1 < ms0.areas@[i].data_frames@.len() implies {
        let q = ms0.areas@[i].data_frames@[k1].ppn.0;
        &&& mem.is_data(q) || mem.is_trap(q)
        &&& !post.page_table.owned().contains(q)
        &&& !frames_ppn_contains(frames, q)
    } by {
        let q = ms0.areas@[i].data_frames@[k1].ppn.0;
        assert(ms0.frames_contain(q));
        assert(ms0.owns_page(q));
        assert(a0.live().contains(q));
        if frames_ppn_contains(frames, q) {
            let k2 = choose|k2: int| 0 <= k2 < frames.len() && frames[k2].ppn.0 == q;
            assert(!a0.live().contains(q));
        }
        assert(!ms0.page_table.owned().contains(q));
        if post.page_table.owned().contains(q) {
            assert(false);
        }
        assert(mem.page(q) == m0.page(q));
    }
    // the whole space is well formed again
    assert forall|i: int| 0 <= i < post.areas@.len() implies (#[trigger] post.areas@[i]).area_wf()
        by {
        if i < old_n {
            assert(post.areas@[i] == ms0.areas@[i]);
        }
    }
    assert forall|i: int|
        0 <= i < post.areas@.len() implies (#[trigger] post.areas@[i]).mapped(&mem, root) by {
        if i < old_n {
            assert(post.areas@[i] == ms0.areas@[i]);
            assert forall|w: u64| post.areas@[i].contains(w) implies #[trigger] spec_translate(
                &mem,
                root,
                w,
            ) == Some(post.areas@[i].entry_for(w)) by {
                assert(!(start <= w < start + k));
                assert(w <= VPN_MASK);
                assert(spec_translate(&mem, root, w) == spec_translate(&m0, root, w));
                assert(ms0.areas@[i].mapped(&m0, root));
            }
        } else {
            assert forall|w: u64| post.areas@[i].contains(w) implies #[trigger] spec_translate(
                &mem,
                root,
                w,
            ) == Some(post.areas@[i].entry_for(w)) by {
                assert(spec_translate(&mem, root, w) == Some(
                    pushed_entry(mt, perm, frames, start, w),
                ));
            }
        }
    }
    assert forall|i: int, k1: int|
        #![trigger post.areas@[i].data_frames@[k1]]
        0 <= i < post.areas@.len() && 0 <= k1 < post.areas@[i].data_frames@.len() implies (
    mem.is_data(post.areas@[i].data_frames@[k1].ppn.0) || mem.is_trap(
        post.areas@[i].data_frames@[k1].ppn.0,
    )) && !post.page_table.owned().contains(post.areas@[i].data_frames@[k1].ppn.0) by {
        if i < old_n {
            assert(post.areas@[i] == ms0.areas@[i]);
            assert(ms0.areas@[i].data_frames@[k1] == post.areas@[i].data_frames@[k1]);
        } else {
            assert(post.areas@[i].data_frames@[k1] == frames[k1]);
        }
    }
    assert forall|i: int, k1: int, i2: int, k2: int|
        #![trigger post.areas@[i].data_frames@[k1], post.areas@[i2].data_frames@[k2]]
        0 <= i < post.areas@.len() && 0 <= k1 < post.areas@[i].data_frames@.len() && 0 <= i2
            < post.areas@.len() && 0 <= k2 < post.areas@[i2].data_frames@.len() && (i != i2 || k1
            != k2) implies post.areas@[i].data_frames@[k1].ppn.0
        != post.areas@[i2].data_frames@[k2].ppn.0 by {
        if i < old_n {
            assert(post.areas@[i].data_frames@[k1] == ms0.areas@[i].data_frames@[k1]);
        }
        if i2 < old_n {
            assert(post.areas@[i2].data_frames@[k2] == ms0.areas@[i2].data_frames@[k2]);
        }
        if i < old_n && i2 < old_n {
        } else if i == old_n && i2 == old_n {
        } else if i < old_n && i2 == old_n {
            let q = ms0.areas@[i].data_frames@[k1].ppn.0;
            assert(ms0.frames_contain(q));
            assert(a0.live().contains(q));
            assert(!a0.live().contains(frames[k2].ppn.0));
        } else {
            let q = ms0.areas@[i2].data_frames@[k2].ppn.0;
            assert(ms0.frames_contain(q));
            assert(a0.live().contains(q));
            assert(!a0.live().contains(frames[k1].ppn.0));
        }
    }
    assert forall|i2: int, j2: int, w: u64|
        #![trigger post.areas@[i2].contains(w), post.areas@[j2].contains(w)]
        0 <= i2 < post.areas@.len() && 0 <= j2 < post.areas@.len() && i2 != j2
            && post.areas@[i2].contains(w) implies !post.areas@[j2].contains(w) by {
        if i2 < old_n {
            assert(post.areas@[i2] == ms0.areas@[i2]);
        }
        if j2 < old_n {
            assert(post.areas@[j2] == ms0.areas@[j2]);
        }
        if i2 < old_n && j2 < old_n {
        } else if i2 == old_n {
            assert(start <= w < start + k);
            assert(ms0.areas@[j2].vpn_range.end_val() <= start || ms0.areas@[j2].vpn_range.start_val()
                >= end);
        } else {
            if post.areas@[j2].contains(w) {
                assert(start <= w < start + k);
                assert(ms0.areas@[i2].vpn_range.end_val() <= start
                    || ms0.areas@[i2].vpn_range.start_val() >= end);
            }
        }
    }
    assert forall|w: u64|
        w <= VPN_MASK && (#[trigger] spec_translate(&mem, root, w)) is Some implies post.covers(
        w,
    ) by {
        if start <= w < start + k {
            assert(post.areas@[old_n].contains(w));
        } else {
            assert(spec_translate(&m0, root, w) == spec_translate(&mem, root, w));
            assert(ms0.covers(w));
            if ms0.trampoline is Some && w == VPN_MASK {
            } else {
                let i = choose|i: int|
                    0 <= i < ms0.areas@.len() && (#[trigger] ms0.areas@[i]).contains(w);
                assert(post.areas@[i] == ms0.areas@[i]);
                assert(post.areas@[i].contains(w));
            }
        }
    }
    if post.trampoline is Some {
        assert(spec_translate(&mem, root, VPN_MASK) == spec_translate(&m0, root, VPN_MASK));
    }
    assert(post.wf(&mem));
    assert forall|q: u64|
        a0.live().contains(q) && !post.owns_page(q) implies #[trigger] mem.page(q) == m0.page(
        q,
    ) by {
        assert(!post.page_table.owned().contains(q));
        if frames_ppn_contains(frames, q) {
            let k1 = choose|k1: int| 0 <= k1 < frames.len() && frames[k1].ppn.0 == q;
            assert(post.areas@[old_n].data_frames@[k1].ppn.0 == q);
        }
    }
}

impl MemorySet {
    /// Adds one region covering `[start, end)` and maps every page of it:
    /// a framed region gets one fresh zeroed frame per page, filled from
    /// `data` as far as it reaches; an identical region maps each page to
    /// the physical page of the same number.  Fails only when the frame
    /// allocator runs dry, a fatal kernel condition; three free frames per
    /// page always suffice.
    pub fn push_area(
        &mut self,
        allocator: &mut StackFrameAllocator,
        mem: &mut PhysMemory,
        start: VirtPageNum,
        end: VirtPageNum,
        map_type: MapType,
        perm: MapPermission,
        data: Option<&[u8]>,
    ) -> (r: Result<(), PagingError>)
        requires
            old(self).wf(old(mem)),
            old(mem).wf(),
            old(allocator)@.wf(),
            within(old(allocator)@, old(mem)),
            start.0 <= end.0,
            end.0 <= VPN_MASK,
            forall|q: u64| old(self).owns_page(q) ==> old(allocator)@.live().contains(q),
            forall|i: int|
                0 <= i < old(self).areas@.len() ==> (#[trigger] old(
                    self,
                ).areas@[i]).vpn_range.end_val() <= start.0
                    || old(self).areas@[i].vpn_range.start_val() >= end.0,
            data is Some ==> map_type is Framed,
        ensures
            final(self).wf(final(mem)),
            final(mem).wf(),
            final(allocator)@.wf(),
            within(final(allocator)@, final(mem)),
            final(mem).base == old(mem).base,
            final(mem).pages@.len() == old(mem).pages@.len(),
            final(self).page_table.root_ppn == old(self).page_table.root_ppn,
            final(self).trampoline == old(self).trampoline,
            forall|q: u64| old(self).owns_page(q) ==> #[trigger] final(self).owns_page(q),
            forall|q: u64|
                #[trigger] final(self).owns_page(q) ==> old(self).owns_page(q) || !old(
                    allocator,
                )@.live().contains(q),
            forall|q: u64|
                #[trigger] final(self).owns_page(q) ==> final(allocator)@.live().contains(q),
            forall|q: u64|
                old(allocator)@.live().contains(q) ==> #[trigger] final(allocator)@.live().contains(
                    q,
                ),
            forall|q: u64|
                #[trigger] final(allocator)@.live().contains(q) ==> old(allocator)@.live().contains(
                    q,
                ) || final(self).owns_page(q),
            forall|q: u64|
                old(allocator)@.live().contains(q) && !final(self).owns_page(q)
                    ==> #[trigger] final(mem).page(q) == old(mem).page(q),
            forall|w: u64|
                w <= VPN_MASK && !(start.0 <= w < end.0) ==> #[trigger] spec_translate(
                    final(mem),
                    old(self).page_table.root_ppn.0,
                    w,
                ) == spec_translate(&*old(mem), old(self).page_table.root_ppn.0, w),
            final(allocator)@.free_count() >= old(allocator)@.free_count() - 3 * (end.0
                - start.0),
            old(allocator)@.free_count() >= 3 * (end.0 - start.0) ==> r is Ok,
            final(allocator)@.free_count() >= old(allocator)@.free_count() - push_budget(
                map_type,
                start.0,
                end.0 - start.0,
            ),
            old(allocator)@.free_count() >= push_budget(map_type, start.0, end.0 - start.0)
                ==> r is Ok,
            r is Err ==> r == Err::<(), PagingError>(PagingError::OutOfFrames),
            r is Ok ==> {
                &&& final(self).areas@.len() == old(self).areas@.len() + 1
                &&& forall|i: int|
                    0 <= i < old(self).areas@.len() ==> final(self).areas@[i] == old(
                        self,
                    ).areas@[i]
                &&& final(self).areas@.last().vpn_range.start_val() == start.0
                &&& final(self).areas@.last().vpn_range.end_val() == end.0
                &&& final(self).areas@.last().map_type == map_type
                &&& final(self).areas@.last().map_perm == perm
                &&& forall|w: u64|
                    start.0 <= w < end.0 ==> #[trigger] spec_translate(
                        final(mem),
                        old(self).page_table.root_ppn.0,
                        w,
                    ) == Some(final(self).areas@.last().entry_for(w))
                &&& map_type is Framed ==> forall|w: u64|
                    start.0 <= w < end.0 ==> #[trigger] final(mem).bytes(
                        final(self).areas@.last().data_frames@[w - start.0].ppn.0,
                    ) == page_slice(opt_bytes(data), w - start.0)
            },
    {
        let ghost ms0 = *old(self);
        let ghost m0 = *old(mem);
        let ghost a0 = old(allocator)@;
        let ghost root = old(self).page_table.root_ppn.0;
        let ghost dseq = opt_bytes(data);
        let n = (end.0 - start.0) as usize;
        let mut frames: Vec<FrameTracker> = Vec::new();
        let mut k: usize = 0;
        proof {
            assert(frames@ =~= Seq::<FrameTracker>::empty());
            assert forall|q: u64|
                self.page_table.owned().contains(q) || frames_ppn_contains(frames@, q)
                    || ms0.owns_page(q) implies #[trigger] allocator@.live().contains(q) by {
                if self.page_table.owned().contains(q) || ms0.owns_page(q) {
                    assert(ms0.owns_page(q));
                }
            }
            assert(push_inv(ms0, self.page_table, m0, *mem, a0, allocator@, frames@, map_type,
                perm, dseq, start.0, end.0, 0));
        }
        while k < n
            invariant
                n == end.0 - start.0,
                k <= n,
                start.0 + k <= end.0,
                data is Some ==> map_type is Framed,
                dseq == opt_bytes(data),
                ms0 == *old(self),
                m0 == *old(mem),
                a0 == old(allocator)@,
                self.areas == ms0.areas,
                self.trampoline == ms0.trampoline,
                root == ms0.page_table.root_ppn.0,
                allocator@.free_count() >= a0.free_count() - 3 * (k as int),
                allocator@.free_count() >= a0.free_count() - push_budget(map_type, start.0,
                    k as int),
                push_inv(ms0, self.page_table, m0, *mem, a0, allocator@, frames@, map_type, perm,
                    dseq, start.0, end.0, k as int),
            decreases n - k,
        {
            let ghost m_it = *mem;
            let ghost a_it = allocator@;
            let ghost frames_it = frames@;
            let vpn = VirtPageNum(start.0 + k as u64);
            proof {
                assert(spec_translate(mem, root, vpn.0) == spec_translate(&m0, root, vpn.0));
                if spec_translate(&m0, root, vpn.0) is Some {
                    assert(ms0.covers(vpn.0));
                    if ms0.trampoline is Some && vpn.0 == VPN_MASK {
                        assert(false);
                    } else {
                        let i = choose|i: int|
                            0 <= i < ms0.areas@.len() && (#[trigger] ms0.areas@[i]).contains(
                                vpn.0,
                            );
                        assert(false);
                    }
                }
            }
            let ppn: PhysPageNum;
            let mut frame_opt: Option<FrameTracker> = None;
            match map_type {
                MapType::Framed => {
                    proof {
                        crate::frame_allocator::lemma_alloc_step(allocator@);
                    }
                    match frame_alloc(allocator, mem) {
                        None => {
                            proof {
                                lemma_blocks_bounds(start.0, n as int);
                                assert(blocks_touched(start.0, k as int) <= blocks_touched(
                                    start.0,
                                    n as int,
                                ));
                                assert(a0.free_count() < push_budget(
                                    map_type,
                                    start.0,
                                    n as int,
                                ));
                            }
                            let partial = MapArea {
                                vpn_range: VPNRange::new(start, vpn),
                                data_frames: frames,
                                map_type,
                                map_perm: perm,
                            };
                            self.areas.push(partial);
                            proof {
                                lemma_push_area_final(ms0, *self, m0, *mem, a0, allocator@,
                                    self.areas@.last(), map_type, perm, dseq, start.0, end.0,
                                    k as int);
                            }
                            return Err(PagingError::OutOfFrames);
                        },
                        Some(f) => {
                            match data {
                                None => {},
                                Some(d) => {
                                    let dlen = d.len();
                                    let src: usize = if (k as u64) * 4096u64 < dlen as u64 {
                                        k * PAGE_BYTES
                                    } else {
                                        dlen
                                    };
                                    mem.fill_page(f.ppn.0, d, src);
                                    proof {
                                        assert(mem.bytes(f.ppn.0) =~= page_slice(
                                            dseq,
                                            k as int,
                                        ));
                                    }
                                },
                            }
                            proof {
                                if data is None {
                                    assert(mem.bytes(f.ppn.0) =~= page_slice(dseq, k as int));
                                }
                                assert(!a_it.live().contains(f.ppn.0));
                                assert(!self.page_table.owned().contains(f.ppn.0));
                                assert forall|q: u64|
                                    self.page_table.owned().contains(q) implies #[trigger] mem.page(
                                    q,
                                ) == m_it.page(q) by {
                                    assert(q != f.ppn.0);
                                }
                                crate::page_table::lemma_pt_untouched(self.page_table, m_it, *mem);
                            }
                            ppn = f.ppn;
                            frame_opt = Some(f);
                        },
                    }
                },
                MapType::Identical => {
                    ppn = PhysPageNum(vpn.0);
                },
            }
            let ghost m_pm = *mem;
            let ghost a_pm = allocator@;
            let ghost pt_pm = self.page_table;
            proof {
                assert(spec_translate(mem, root, vpn.0) is None);
                assert(spec_nodes_needed(mem, root, vpn.0) <= 2);
                assert forall|q: u64|
                    self.page_table.owned().contains(q) implies #[trigger] allocator@.live().contains(
                    q,
                ) by {}
                if ppn.0 > crate::address::PPN_MASK {
                    assert(false);
                }
            }
            let res = self.page_table.map(allocator, mem, vpn, ppn, PTEFlags::new(perm.bits));
            match res {
                Err(_) => {
                    proof {
                        assert(a_pm.free_count() < spec_nodes_needed(&m_pm, root, vpn.0));
                        assert(spec_nodes_needed(&m_pm, root, vpn.0) <= 2);
                        assert(a_pm.free_count() >= a_it.free_count() - 1);
                        assert((k as int) < n as int);
                        assert(a0.free_count() < 3 * (end.0 - start.0));
                        lemma_blocks_bounds(start.0, n as int);
                        lemma_blocks_step(start.0, k as int);
                        assert(spec_nodes_needed(&m_pm, root, vpn.0) >= 1);
                        if k >= 1 && vpn.0 % 512 != 0 {
                            assert(spec_translate(&m_pm, root, (vpn.0 - 1) as u64) is Some);
                            crate::page_table::lemma_same_block_zero_needed(&m_pm, root, vpn.0);
                            assert(false);
                        }
                        assert(push_budget(map_type, start.0, k + 1) == push_budget(
                            map_type,
                            start.0,
                            k as int,
                        ) + 2 + (if map_type is Framed {
                            1int
                        } else {
                            0int
                        }));
                        assert(blocks_touched(start.0, k + 1) <= blocks_touched(
                            start.0,
                            n as int,
                        ));
                        assert(a0.free_count() < push_budget(map_type, start.0, n as int));
                    }
                    match frame_opt {
                        Some(f) => {
                            proof {
                                crate::frame_allocator::lemma_dealloc_step(allocator@, f.ppn.0);
                                assert(allocator@.live().contains(f.ppn.0));
                            }
                            let dr = crate::frame_allocator::frame_dealloc(allocator, mem, f);
                            proof {
                                assert(dr is Ok);
                                assert forall|q: u64|
                                    self.page_table.owned().contains(q) || frames_ppn_contains(
                                        frames@,
                                        q,
                                    ) || ms0.owns_page(q) implies #[trigger] allocator@.live().contains(
                                    q,
                                ) by {
                                    assert(q != f.ppn.0);
                                }
                            }
                        },
                        None => {},
                    }
                    proof {
                        assert forall|w: u64|
                            w <= VPN_MASK && !(start.0 <= w < start.0 + k) implies
                            #[trigger] spec_translate(mem, root, w) == spec_translate(
                            &m0,
                            root,
                            w,
                        ) by {
                            assert(spec_translate(mem, root, w) == spec_translate(&m_pm, root, w));
                            assert(spec_translate(&m_pm, root, w) == spec_translate(
                                &m_it,
                                root,
                                w,
                            ));
                        }
                        assert forall|w: u64|
                            start.0 <= w < start.0 + k implies #[trigger] spec_translate(
                            mem,
                            root,
                            w,
                        ) == Some(pushed_entry(map_type, perm, frames@, start.0, w)) by {
                            assert(spec_translate(mem, root, w) == spec_translate(&m_pm, root, w));
                            assert(spec_translate(&m_pm, root, w) == spec_translate(
                                &m_it,
                                root,
                                w,
                            ));
                        }
                        if map_type is Framed {
                            assert forall|k1: int|
                                0 <= k1 < k implies mem.is_data(#[trigger] frames@[k1].ppn.0)
                                && mem.bytes(frames@[k1].ppn.0) == page_slice(dseq, k1)
                                && !self.page_table.owned().contains(frames@[k1].ppn.0)
                                && !ms0.owns_page(frames@[k1].ppn.0) && !a0.live().contains(
                                frames@[k1].ppn.0,
                            ) && allocator@.live().contains(frames@[k1].ppn.0) && mem.in_range(
                                frames@[k1].ppn.0,
                            ) by {
                                let q = frames@[k1].ppn.0;
                                assert(a_it.live().contains(q));
                                assert(q != ppn.0);
                                if self.page_table.owned().contains(q) {
                                    assert(pt_pm.owned().contains(q) || !a_pm.live().contains(q));
                                    assert(false);
                                }
                                assert(mem.page(q) == m_pm.page(q));
                                assert(m_pm.page(q) == m_it.page(q));
                            }
                        }
                        assert forall|q: u64|
                            #[trigger] allocator@.live().contains(q) implies a0.live().contains(q)
                                || self.page_table.owned().contains(q) || frames_ppn_contains(
                                frames@,
                                q,
                            ) by {
                            if a_pm.live().contains(q) {
                                if !a_it.live().contains(q) {
                                    assert(q == ppn.0);
                                    assert(false);
                                }
                            } else {
                                assert(self.page_table.owned().contains(q));
                            }
                        }
                        assert forall|q: u64|
                            a0.live().contains(q) && !self.page_table.owned().contains(q)
                                && !frames_ppn_contains(frames@, q) implies #[trigger] mem.page(q)
                            == m0.page(q) by {
                            assert(!pt_pm.owned().contains(q));
                            assert(mem.page(q) == m_pm.page(q));
                            assert(q != ppn.0 || map_type is Identical);
                            assert(m_pm.page(q) == m_it.page(q));
                        }
                        assert(push_inv(ms0, self.page_table, m0, *mem, a0, allocator@, frames@,
                            map_type, perm, dseq, start.0, end.0, k as int));
                    }
                    let partial = MapArea {
                        vpn_range: VPNRange::new(start, vpn),
                        data_frames: frames,
                        map_type,
                        map_perm: perm,
                    };
                    self.areas.push(partial);
                    proof {
                        lemma_push_area_final(ms0, *self, m0, *mem, a0, allocator@,
                            self.areas@.last(), map_type, perm, dseq, start.0, end.0, k as int);
                    }
                    return Err(PagingError::OutOfFrames);
                },
                Ok(()) => {},
            }
            match frame_opt {
                Some(f) => {
                    frames.push(f);
                },
                None => {},
            }
            k = k + 1;
            proof {
                crate::page_table::lemma_needed_at_most_two(&m_pm, root, vpn.0);
                lemma_blocks_step(start.0, (k - 1) as int);
                if k >= 2 && vpn.0 % 512 != 0 {
                    assert(spec_translate(&m_pm, root, (vpn.0 - 1) as u64) is Some);
                    crate::page_table::lemma_same_block_zero_needed(&m_pm, root, vpn.0);
                }
                assert(allocator@.free_count() >= a0.free_count() - push_budget(
                    map_type,
                    start.0,
                    k as int,
                ));
                assert forall|w: u64|
                    w <= VPN_MASK && !(start.0 <= w < start.0 + k) implies #[trigger] spec_translate(
                    mem,
                    root,
                    w,
                ) == spec_translate(&m0, root, w) by {
                    assert(spec_translate(mem, root, w) == spec_translate(&m_pm, root, w));
                    assert(spec_translate(&m_pm, root, w) == spec_translate(&m_it, root, w));
                }
                assert forall|w: u64|
                    start.0 <= w < start.0 + k implies #[trigger] spec_translate(mem, root, w)
                    == Some(pushed_entry(map_type, perm, frames@, start.0, w)) by {
                    if w < start.0 + k - 1 {
                        assert(spec_translate(mem, root, w) == spec_translate(&m_pm, root, w));
                        assert(spec_translate(&m_pm, root, w) == spec_translate(&m_it, root, w));
                        assert(spec_translate(&m_it, root, w) == Some(
                            pushed_entry(map_type, perm, frames_it, start.0, w),
                        ));
                        if map_type is Framed {
                            assert(frames@[w - start.0] == frames_it[w - start.0]);
                        }
                    } else {
                        assert(w == vpn.0);
                        if map_type is Framed {
                            assert(frames@.last().ppn == ppn);
                        }
                    }
                }
                if map_type is Framed {
                    assert forall|k1: int|
                        0 <= k1 < k implies mem.is_data(#[trigger] frames@[k1].ppn.0)
                        && mem.bytes(frames@[k1].ppn.0) == page_slice(dseq, k1)
                        && !self.page_table.owned().contains(frames@[k1].ppn.0)
                        && !ms0.owns_page(frames@[k1].ppn.0) && !a0.live().contains(
                        frames@[k1].ppn.0,
                    ) && allocator@.live().contains(frames@[k1].ppn.0) && mem.in_range(
                        frames@[k1].ppn.0,
                    ) by {
                        let q = frames@[k1].ppn.0;
                        assert(a_pm.live().contains(q));
                        if self.page_table.owned().contains(q) {
                            assert(pt_pm.owned().contains(q) || !a_pm.live().contains(q));
                            if k1 < k - 1 {
                                assert(!pt_pm.owned().contains(q));
                            } else {
                                assert(!a_it.live().contains(q));
                                assert(!pt_pm.owned().contains(q));
                            }
                            assert(false);
                        }
                        assert(mem.page(q) == m_pm.page(q));
                        if k1 < k - 1 {
                            assert(frames@[k1] == frames_it[k1]);
                            assert(m_pm.page(q) == m_it.page(q));
                            if ms0.owns_page(q) {
                                assert(a0.live().contains(q));
                            }
                        } else {
                            if ms0.owns_page(q) {
                                assert(a0.live().contains(q));
                                assert(!a_it.live().contains(q));
                                assert(false);
                            }
                        }
                    }
                }
                assert forall|q: u64|
                    self.page_table.owned().contains(q) || frames_ppn_contains(frames@, q)
                        || ms0.owns_page(q) implies #[trigger] allocator@.live().contains(q) by {
                    if frames_ppn_contains(frames@, q) {
                        let k1 = choose|k1: int| 0 <= k1 < frames@.len() && frames@[k1].ppn.0 == q;
                    }
                    if ms0.owns_page(q) {
                        assert(a0.live().contains(q));
                    }
                }
                assert forall|q: u64|
                    #[trigger] allocator@.live().contains(q) implies a0.live().contains(q)
                        || self.page_table.owned().contains(q) || frames_ppn_contains(
                        frames@,
                        q,
                    ) by {
                    if a_pm.live().contains(q) {
                        if !a_it.live().contains(q) {
                            assert(map_type is Framed);
                            assert(q == ppn.0);
                            assert(frames@[k - 1].ppn.0 == q);
                        } else {
                            if frames_ppn_contains(frames_it, q) {
                                let k1 = choose|k1: int|
                                    0 <= k1 < frames_it.len() && frames_it[k1].ppn.0 == q;
                                assert(frames@[k1].ppn.0 == q);
                            }
                        }
                    } else {
                        assert(self.page_table.owned().contains(q));
                    }
                }
                assert forall|q: u64|
                    a0.live().contains(q) && !self.page_table.owned().contains(q)
                        && !frames_ppn_contains(frames@, q) implies #[trigger] mem.page(q)
                    == m0.page(q) by {
                    assert(!pt_pm.owned().contains(q));
                    assert(mem.page(q) == m_pm.page(q));
                    if map_type is Framed {
                        assert(frames@[k - 1] == frames@.last());
                        assert(q != frames@.last().ppn.0);
                        assert(!frames_ppn_contains(frames_it, q)) by {
                            if frames_ppn_contains(frames_it, q) {
                                let k1 = choose|k1: int|
                                    0 <= k1 < frames_it.len() && frames_it[k1].ppn.0 == q;
                                assert(frames@[k1].ppn.0 == q);
                            }
                        }
                        assert(m_pm.page(q) == m_it.page(q));
                    } else {
                        assert(m_pm.page(q) == m_it.page(q));
                    }
                }
                assert forall|k1: int, k2: int|
                    #![trigger frames@[k1], frames@[k2]]
                    0 <= k1 < frames@.len() && 0 <= k2 < frames@.len() && k1 != k2 implies frames@[k1].ppn.0
                    != frames@[k2].ppn.0 by {
                    if map_type is Framed {
                        if k1 == k - 1 {
                            assert(frames@[k2] == frames_it[k2]);
                            assert(a_it.live().contains(frames@[k2].ppn.0));
                            assert(!a_it.live().contains(frames@[k1].ppn.0));
                        } else if k2 == k - 1 {
                            assert(frames@[k1] == frames_it[k1]);
                            assert(a_it.live().contains(frames@[k1].ppn.0));
                            assert(!a_it.live().contains(frames@[k2].ppn.0));
                        } else {
                            assert(frames@[k1] == frames_it[k1]);
                            assert(frames@[k2] == frames_it[k2]);
                        }
                    }
                }
                assert(push_inv(ms0, self.page_table, m0, *mem, a0, allocator@, frames@, map_type,
                    perm, dseq, start.0, end.0, k as int));
            }
        }
        let area = MapArea {
            vpn_range: VPNRange::new(start, end),
            data_frames: frames,
            map_type,
            map_perm: perm,
        };
        self.areas.push(area);
        proof {
            lemma_push_area_final(ms0, *self, m0, *mem, a0, allocator@, self.areas@.last(),
                map_type, perm, dseq, start.0, end.0, n as int);
            assert forall|w: u64|
                start.0 <= w < end.0 implies #[trigger] spec_translate(mem, root, w) == Some(
                self.areas@.last().entry_for(w),
            ) by {
                assert(spec_translate(mem, root, w) == Some(
                    pushed_entry(map_type, perm, self.areas@.last().data_frames@, start.0, w),
                ));
            }
        }
        Ok(())
    }
}

impl MemorySet {
    /// Adds one framed region covering the pages from `start_va` rounded
    /// down to `end_va` rounded up, backed by fresh zeroed frames.
    pub fn insert_framed_area(
        &mut self,
        allocator: &mut StackFrameAllocator,
        mem: &mut PhysMemory,
        start_va: VirtAddr,
        end_va: VirtAddr,
        permission: MapPermission,
    ) -> (r: Result<(), PagingError>)
        requires
            old(self).wf(old(mem)),
            old(mem).wf(),
            old(allocator)@.wf(),
            within(old(allocator)@, old(mem)),
            start_va.0 / PAGE_SIZE <= (end_va.0 + PAGE_SIZE - 1) / (PAGE_SIZE as int),
            end_va.0 <= u64::MAX - PAGE_SIZE,
            (end_va.0 + PAGE_SIZE - 1) / (PAGE_SIZE as int) <= VPN_MASK,
            forall|q: u64| old(self).owns_page(q) ==> old(allocator)@.live().contains(q),
            forall|i: int|
                0 <= i < old(self).areas@.len() ==> (#[trigger] old(
                    self,
                ).areas@[i]).vpn_range.end_val() <= start_va.0 / PAGE_SIZE || old(
                    self,
                ).areas@[i].vpn_range.start_val() >= (end_va.0 + PAGE_SIZE - 1) / (
                PAGE_SIZE as int),
        ensures
            final(self).wf(final(mem)),
            final(mem).wf(),
            final(allocator)@.wf(),
            within(final(allocator)@, final(mem)),
            final(mem).base == old(mem).base,
            final(mem).pages@.len() == old(mem).pages@.len(),
            final(self).page_table.root_ppn == old(self).page_table.root_ppn,
            final(self).trampoline == old(self).trampoline,
            forall|q: u64| old(self).owns_page(q) ==> #[trigger] final(self).owns_page(q),
            forall|q: u64|
                #[trigger] final(self).owns_page(q) ==> old(self).owns_page(q) || !old(
                    allocator,
                )@.live().contains(q),
            forall|q: u64|
                #[trigger] final(self).owns_page(q) ==> final(allocator)@.live().contains(q),
            forall|q: u64|
                old(allocator)@.live().contains(q) ==> #[trigger] final(allocator)@.live().contains(
                    q,
                ),
            forall|q: u64|
                #[trigger] final(allocator)@.live().contains(q) ==> old(allocator)@.live().contains(
                    q,
                ) || final(self).owns_page(q),
            forall|q: u64|
                old(allocator)@.live().contains(q) && !final(self).owns_page(q)
                    ==> #[trigger] final(mem).page(q) == old(mem).page(q),
            forall|w: u64|
                w <= VPN_MASK && !(start_va.0 / PAGE_SIZE <= w < (end_va.0 + PAGE_SIZE - 1) / (
                PAGE_SIZE as int)) ==> #[trigger] spec_translate(
                    final(mem),
                    old(self).page_table.root_ppn.0,
                    w,
                ) == spec_translate(&*old(mem), old(self).page_table.root_ppn.0, w),
            old(allocator)@.free_count() >= 3 * ((end_va.0 + PAGE_SIZE - 1) / (PAGE_SIZE as int)
                - start_va.0 / PAGE_SIZE) ==> r is Ok,
            r is Err ==> r == Err::<(), PagingError>(PagingError::OutOfFrames),
            r is Ok ==> {
                &&& final(self).areas@.len() == old(self).areas@.len() + 1
                &&& forall|i: int|
                    0 <= i < old(self).areas@.len() ==> final(self).areas@[i] == old(
                        self,
                    ).areas@[i]
                &&& final(self).areas@.last().vpn_range.start_val() == start_va.0 / PAGE_SIZE
                &&& final(self).areas@.last().vpn_range.end_val() == (end_va.0 + PAGE_SIZE - 1) / (
                PAGE_SIZE as int)
                &&& final(self).areas@.last().map_type == MapType::Framed
                &&& final(self).areas@.last().map_perm == permission
                &&& forall|w: u64|
                    start_va.0 / PAGE_SIZE <= w < (end_va.0 + PAGE_SIZE - 1) / (PAGE_SIZE as int)
                        ==> #[trigger] spec_translate(
                        final(mem),
                        old(self).page_table.root_ppn.0,
                        w,
                    ) == Some(final(self).areas@.last().entry_for(w))
            },
    {
        let start = start_va.floor();
        let end = end_va.ceil();
        self.push_area(allocator, mem, start, end, MapType::Framed, permission, None)
    }

    /// Installs the trampoline mapping: the very top virtual page maps to
    /// `strampoline`, readable and executable, in this and, by the same
    /// call on each, every other space.
    pub fn map_trampoline(
        &mut self,
        allocator: &mut StackFrameAllocator,
        mem: &mut PhysMemory,
        strampoline: PhysPageNum,
    ) -> (r: Result<(), PagingError>)
        requires
            old(self).wf(old(mem)),
            old(mem).wf(),
            old(allocator)@.wf(),
            within(old(allocator)@, old(mem)),
            old(self).trampoline is None,
            strampoline.0 <= crate::address::PPN_MASK,
            forall|q: u64| old(self).owns_page(q) ==> old(allocator)@.live().contains(q),
        ensures
            final(self).wf(final(mem)),
            final(mem).wf(),
            final(allocator)@.wf(),
            within(final(allocator)@, final(mem)),
            final(mem).base == old(mem).base,
            final(mem).pages@.len() == old(mem).pages@.len(),
            final(self).page_table.root_ppn == old(self).page_table.root_ppn,
            final(self).areas == old(self).areas,
            forall|q: u64| old(self).owns_page(q) ==> #[trigger] final(self).owns_page(q),
            forall|q: u64|
                #[trigger] final(self).owns_page(q) ==> old(self).owns_page(q) || !old(
                    allocator,
                )@.live().contains(q),
            forall|q: u64|
                #[trigger] final(self).owns_page(q) ==> final(allocator)@.live().contains(q),
            forall|q: u64|
                old(allocator)@.live().contains(q) ==> #[trigger] final(allocator)@.live().contains(
                    q,
                ),
            forall|q: u64|
                #[trigger] final(allocator)@.live().contains(q) ==> old(allocator)@.live().contains(
                    q,
                ) || final(self).owns_page(q),
            forall|q: u64|
                old(allocator)@.live().contains(q) && !final(self).owns_page(q)
                    ==> #[trigger] final(mem).page(q) == old(mem).page(q),
            forall|w: u64|
                w <= VPN_MASK && w != VPN_MASK ==> #[trigger] spec_translate(
                    final(mem),
                    old(self).page_table.root_ppn.0,
                    w,
                ) == spec_translate(&*old(mem), old(self).page_table.root_ppn.0, w),
            final(allocator)@.free_count() >= old(allocator)@.free_count() - 2,
            old(allocator)@.free_count() >= 2 ==> r is Ok,
            r is Err ==> r == Err::<(), PagingError>(PagingError::OutOfFrames),
            r is Ok ==> final(self).trampoline == Some(strampoline),
    {
        let ghost ms0 = *old(self);
        let ghost m0 = *old(mem);
        let ghost a0 = old(allocator)@;
        let ghost root = old(self).page_table.root_ppn.0;
        let vpn = VirtPageNum(VPN_MASK);
        proof {
            if spec_translate(&m0, root, vpn.0) is Some {
                assert(ms0.covers(vpn.0));
                let i = choose|i: int|
                    0 <= i < ms0.areas@.len() && (#[trigger] ms0.areas@[i]).contains(vpn.0);
                assert(false);
            }
            assert forall|q: u64|
                self.page_table.owned().contains(q) implies #[trigger] allocator@.live().contains(
                q,
            ) by {
                assert(ms0.owns_page(q));
            }
            assert(spec_nodes_needed(&m0, root, vpn.0) <= 2);
        }
        let res = self.page_table.map(
            allocator,
            mem,
            vpn,
            strampoline,
            PTEFlags::new(MAP_PERM_R | MAP_PERM_X),
        );
        match res {
            Err(_) => {
                proof {
                    assert forall|q: u64|
                        a0.live().contains(q) && !self.owns_page(q) implies #[trigger] mem.page(q)
                        == m0.page(q) by {
                        assert(!self.page_table.owned().contains(q));
                    }
                    assert forall|i: int|
                        0 <= i < self.areas@.len() implies (#[trigger] self.areas@[i]).mapped(
                        mem,
                        root,
                    ) by {
                        assert forall|w: u64|
                            self.areas@[i].contains(w) implies #[trigger] spec_translate(
                            mem,
                            root,
                            w,
                        ) == Some(self.areas@[i].entry_for(w)) by {
                            assert(spec_translate(mem, root, w) == spec_translate(&m0, root, w));
                        }
                    }
                    assert forall|q: u64|
                        #[trigger] self.owns_page(q) implies allocator@.live().contains(q) by {
                        if ms0.owns_page(q) {
                            assert(a0.live().contains(q));
                        }
                    }
                    assert forall|i: int, k1: int|
                        #![trigger self.areas@[i].data_frames@[k1]]
                        0 <= i < self.areas@.len() && 0 <= k1
                            < self.areas@[i].data_frames@.len() implies (mem.is_data(
                        self.areas@[i].data_frames@[k1].ppn.0,
                    ) || mem.is_trap(self.areas@[i].data_frames@[k1].ppn.0))
                        && !self.page_table.owned().contains(
                        self.areas@[i].data_frames@[k1].ppn.0,
                    ) by {
                        let q = self.areas@[i].data_frames@[k1].ppn.0;
                        assert(ms0.frames_contain(q));
                        assert(ms0.owns_page(q));
                        assert(a0.live().contains(q));
                        if self.page_table.owned().contains(q) {
                            assert(false);
                        }
                        assert(mem.page(q) == m0.page(q));
                    }
                    assert forall|w: u64|
                        w <= VPN_MASK && (#[trigger] spec_translate(mem, root, w)) is Some
                        implies self.covers(w) by {
                        assert(spec_translate(mem, root, w) == spec_translate(&m0, root, w));
                        assert(ms0.covers(w));
                        let i = choose|i: int|
                            0 <= i < ms0.areas@.len() && (#[trigger] ms0.areas@[i]).contains(w);
                        assert(self.areas@[i].contains(w));
                    }
                    assert(self.wf(mem));
                }
                Err(PagingError::OutOfFrames)
            },
            Ok(()) => {
                self.trampoline = Some(strampoline);
                proof {
                    assert forall|q: u64|
                        a0.live().contains(q) && !self.owns_page(q) implies #[trigger] mem.page(q)
                        == m0.page(q) by {
                        assert(!self.page_table.owned().contains(q));
                    }
                    assert forall|i: int|
                        0 <= i < self.areas@.len() implies (#[trigger] self.areas@[i]).mapped(
                        mem,
                        root,
                    ) by {
                        assert forall|w: u64|
                            self.areas@[i].contains(w) implies #[trigger] spec_translate(
                            mem,
                            root,
                            w,
                        ) == Some(self.areas@[i].entry_for(w)) by {
                            assert(w != VPN_MASK);
                            assert(spec_translate(mem, root, w) == spec_translate(&m0, root, w));
                        }
                    }
                    assert forall|i: int, k1: int|
                        #![trigger self.areas@[i].data_frames@[k1]]
                        0 <= i < self.areas@.len() && 0 <= k1
                            < self.areas@[i].data_frames@.len() implies (mem.is_data(
                        self.areas@[i].data_frames@[k1].ppn.0,
                    ) || mem.is_trap(self.areas@[i].data_frames@[k1].ppn.0))
                        && !self.page_table.owned().contains(
                        self.areas@[i].data_frames@[k1].ppn.0,
                    ) by {
                        let q = self.areas@[i].data_frames@[k1].ppn.0;
                        assert(ms0.frames_contain(q));
                        assert(ms0.owns_page(q));
                        assert(a0.live().contains(q));
                        if self.page_table.owned().contains(q) {
                            assert(false);
                        }
                        assert(mem.page(q) == m0.page(q));
                    }
                    assert forall|w: u64|
                        w <= VPN_MASK && (#[trigger] spec_translate(mem, root, w)) is Some
                        implies self.covers(w) by {
                        if w != VPN_MASK {
                            assert(spec_translate(mem, root, w) == spec_translate(&m0, root, w));
                            assert(ms0.covers(w));
                            let i = choose|i: int|
                                0 <= i < ms0.areas@.len() && (#[trigger] ms0.areas@[i]).contains(
                                    w,
                                );
                            assert(self.areas@[i].contains(w));
                        }
                    }
                    assert((MAP_PERM_R | MAP_PERM_X) | crate::page_table::PTE_V == (MAP_PERM_R
                        | MAP_PERM_X | crate::page_table::PTE_V)) by (bit_vector);
                    assert(self.wf(mem));
                    assert forall|q: u64|
                        #[trigger] self.owns_page(q) implies allocator@.live().contains(q) by {
                        if ms0.owns_page(q) {
                            assert(a0.live().contains(q));
                        }
                    }
                }
                Ok(())
            },
        }
    }
}

/// The first region whose range starts at page `s`, scanning from `j`.
pub open spec fn find_start_idx(areas: Seq<MapArea>, s: int, j: int) -> Option<int>
    decreases areas.len() - j,
{
    if j < 0 || j >= areas.len() {
        None
    } else if areas[j].vpn_range.start_val() == s {
        Some(j)
    } else {
        find_start_idx(areas, s, j + 1)
    }
}

/// What the scan finds is a real index, the first one matching.
pub proof fn lemma_find_start_idx(areas: Seq<MapArea>, s: int, j: int)
    requires
        0 <= j <= areas.len(),
    ensures
        find_start_idx(areas, s, j) matches Some(i) ==> j <= i < areas.len()
            && areas[i].vpn_range.start_val() == s && forall|j2: int|
            j <= j2 < i ==> (#[trigger] areas[j2]).vpn_range.start_val() != s,
        find_start_idx(areas, s, j) is None ==> forall|j2: int|
            j <= j2 < areas.len() ==> (#[trigger] areas[j2]).vpn_range.start_val() != s,
    decreases areas.len() - j,
{
    if j < areas.len() && areas[j].vpn_range.start_val() != s {
        lemma_find_start_idx(areas, s, j + 1);
    }
}

/// Extending region `i` by the pages built in `newfr` restores the full
/// invariant, with every other region untouched.
proof fn lemma_append_area_final(
    ms0: MemorySet,
    post: MemorySet,
    m0: PhysMemory,
    mem: PhysMemory,
    a0: crate::frame_allocator::AllocView,
    av: crate::frame_allocator::AllocView,
    i: int,
    merged: MapArea,
    newfr: Seq<FrameTracker>,
    aend: u64,
    new_end: u64,
    k: int,
)
    requires
        0 <= i < ms0.areas@.len(),
        ms0.areas@[i].map_type is Framed,
        ms0.areas@[i].vpn_range.end_val() == aend,
        push_inv(ms0, post.page_table, m0, mem, a0, av, newfr, MapType::Framed,
            ms0.areas@[i].map_perm, Seq::empty(), aend, new_end, k),
        merged.vpn_range.start_val() == ms0.areas@[i].vpn_range.start_val(),
        merged.vpn_range.end_val() == aend + k,
        merged.map_type is Framed,
        merged.map_perm == ms0.areas@[i].map_perm,
        merged.data_frames@ == ms0.areas@[i].data_frames@ + newfr,
        post.areas@ == ms0.areas@.update(i, merged),
        post.trampoline == ms0.trampoline,
    ensures
        post.wf(&mem),
        forall|q: u64| ms0.owns_page(q) ==> #[trigger] post.owns_page(q),
        forall|q: u64|
            #[trigger] post.owns_page(q) ==> ms0.owns_page(q) || !a0.live().contains(q),
        forall|q: u64| #[trigger] post.owns_page(q) ==> av.live().contains(q),
        forall|q: u64|
            #[trigger] av.live().contains(q) ==> a0.live().contains(q) || post.owns_page(q),
        forall|q: u64|
            a0.live().contains(q) && !post.owns_page(q) ==> #[trigger] mem.page(q) == m0.page(q),
{
    let root = ms0.page_table.root_ppn.0;
    let old_len = ms0.areas@[i].data_frames@.len() as int;
    assert(old_len == aend - ms0.areas@[i].vpn_range.start_val());
    // ownership both ways
    assert forall|q: u64| ms0.owns_page(q) implies #[trigger] post.owns_page(q) by {
        if ms0.frames_contain(q) {
            let (i2, k1) = choose|i2: int, k1: int|
                0 <= i2 < ms0.areas@.len() && 0 <= k1 < ms0.areas@[i2].data_frames@.len()
                    && ms0.areas@[i2].data_frames@[k1].ppn.0 == q;
            if i2 == i {
                assert(post.areas@[i].data_frames@[k1].ppn.0 == q);
            } else {
                assert(post.areas@[i2].data_frames@[k1].ppn.0 == q);
            }
        }
    }
    assert forall|q: u64| frames_ppn_contains(newfr, q) implies #[trigger] post.owns_page(q) by {
        let k1 = choose|k1: int| 0 <= k1 < newfr.len() && newfr[k1].ppn.0 == q;
        assert(post.areas@[i].data_frames@[old_len + k1].ppn.0 == q);
    }
    assert forall|q: u64| #[trigger] post.owns_page(q) implies (ms0.owns_page(q)
        || frames_ppn_contains(newfr, q) || post.page_table.owned().contains(q)) by {
        if post.frames_contain(q) {
            let (i2, k1) = choose|i2: int, k1: int|
                0 <= i2 < post.areas@.len() && 0 <= k1 < post.areas@[i2].data_frames@.len()
                    && post.areas@[i2].data_frames@[k1].ppn.0 == q;
            if i2 == i {
                if k1 < old_len {
                    assert(ms0.areas@[i].data_frames@[k1].ppn.0 == q);
                } else {
                    assert(newfr[k1 - old_len].ppn.0 == q);
                }
            } else {
                assert(ms0.areas@[i2].data_frames@[k1].ppn.0 == q);
            }
        }
    }
    // old frames are untouched data pages apart from the new nodes
    assert forall|i2: int, k1: int|
        #![trigger ms0.areas@[i2].data_frames@[k1]]
        0 <= i2 < ms0.areas@.len() && 0 <= k1 < ms0.areas@[i2].data_frames@.len() implies {
        let q = ms0.areas@[i2].data_frames@[k1].ppn.0;
        &&& mem.is_data(q) || mem.is_trap(q)
        &&& !post.page_table.owned().contains(q)
        &&& !frames_ppn_contains(newfr, q)
    } by {
        let q = ms0.areas@[i2].data_frames@[k1].ppn.0;
        assert(ms0.frames_contain(q));
        assert(ms0.owns_page(q));
        assert(a0.live().contains(q));
        if frames_ppn_contains(newfr, q) {
            let k2 = choose|k2: int| 0 <= k2 < newfr.len() && newfr[k2].ppn.0 == q;
            assert(!a0.live().contains(q));
        }
        assert(!ms0.page_table.owned().contains(q));
        if post.page_table.owned().contains(q) {
            assert(false);
        }
        assert(mem.page(q) == m0.page(q));
    }
    // the whole space is well formed again
    assert forall|i2: int|
        0 <= i2 < post.areas@.len() implies (#[trigger] post.areas@[i2]).area_wf() by {
        if i2 != i {
            assert(post.areas@[i2] == ms0.areas@[i2]);
        } else {
            assert(merged.data_frames@.len() == old_len + k);
        }
    }
    assert forall|i2: int|
        0 <= i2 < post.areas@.len() implies (#[trigger] post.areas@[i2]).mapped(&mem, root) by {
        if i2 != i {
            assert(post.areas@[i2] == ms0.areas@[i2]);
            assert forall|w: u64| post.areas@[i2].contains(w) implies #[trigger] spec_translate(
                &mem,
                root,
                w,
            ) == Some(post.areas@[i2].entry_for(w)) by {
                assert(ms0.areas@[i2].vpn_range.end_val() <= aend || ms0.areas@[i2].vpn_range.start_val()
                    >= new_end);
                assert(!(aend <= w < aend + k));
                assert(w <= VPN_MASK);
                assert(spec_translate(&mem, root, w) == spec_translate(&m0, root, w));
                assert(ms0.areas@[i2].mapped(&m0, root));
            }
        } else {
            assert forall|w: u64| post.areas@[i2].contains(w) implies #[trigger] spec_translate(
                &mem,
                root,
                w,
            ) == Some(post.areas@[i2].entry_for(w)) by {
                if w < aend {
                    assert(!(aend <= w < aend + k));
                    assert(w <= VPN_MASK);
                    assert(spec_translate(&mem, root, w) == spec_translate(&m0, root, w));
                    assert(ms0.areas@[i].mapped(&m0, root));
                    assert(ms0.areas@[i].contains(w));
                    assert(merged.data_frames@[w - merged.vpn_range.start_val()]
                        == ms0.areas@[i].data_frames@[w - ms0.areas@[i].vpn_range.start_val()]);
                } else {
                    assert(spec_translate(&mem, root, w) == Some(
                        pushed_entry(MapType::Framed, merged.map_perm, newfr, aend, w),
                    ));
                    assert(merged.data_frames@[w - merged.vpn_range.start_val()] == newfr[w
                        - aend]);
                }
            }
        }
    }
    assert forall|i2: int, k1: int|
        #![trigger post.areas@[i2].data_frames@[k1]]
        0 <= i2 < post.areas@.len() && 0 <= k1 < post.areas@[i2].data_frames@.len() implies (
    mem.is_data(post.areas@[i2].data_frames@[k1].ppn.0) || mem.is_trap(
        post.areas@[i2].data_frames@[k1].ppn.0,
    )) && !post.page_table.owned().contains(post.areas@[i2].data_frames@[k1].ppn.0) by {
        if i2 != i {
            assert(post.areas@[i2].data_frames@[k1] == ms0.areas@[i2].data_frames@[k1]);
        } else {
            if k1 < old_len {
                assert(post.areas@[i2].data_frames@[k1] == ms0.areas@[i].data_frames@[k1]);
            } else {
                assert(post.areas@[i2].data_frames@[k1] == newfr[k1 - old_len]);
            }
        }
    }
    assert forall|i2: int, k1: int, i3: int, k2: int|
        #![trigger post.areas@[i2].data_frames@[k1], post.areas@[i3].data_frames@[k2]]
        0 <= i2 < post.areas@.len() && 0 <= k1 < post.areas@[i2].data_frames@.len() && 0 <= i3
            < post.areas@.len() && 0 <= k2 < post.areas@[i3].data_frames@.len() && (i2 != i3 || k1
            != k2) implies post.areas@[i2].data_frames@[k1].ppn.0
        != post.areas@[i3].data_frames@[k2].ppn.0 by {
        let f1 = post.areas@[i2].data_frames@[k1];
        let f2 = post.areas@[i3].data_frames@[k2];
        let f1_new = (i2 == i && k1 >= old_len);
        let f2_new = (i3 == i && k2 >= old_len);
        if f1_new {
            assert(f1 == newfr[k1 - old_len]);
        } else {
            if i2 == i {
                assert(f1 == ms0.areas@[i].data_frames@[k1]);
            } else {
                assert(f1 == ms0.areas@[i2].data_frames@[k1]);
            }
            assert(ms0.frames_contain(f1.ppn.0));
            assert(a0.live().contains(f1.ppn.0));
        }
        if f2_new {
            assert(f2 == newfr[k2 - old_len]);
        } else {
            if i3 == i {
                assert(f2 == ms0.areas@[i].data_frames@[k2]);
            } else {
                assert(f2 == ms0.areas@[i3].data_frames@[k2]);
            }
            assert(ms0.frames_contain(f2.ppn.0));
            assert(a0.live().contains(f2.ppn.0));
        }
        if f1_new && !f2_new {
            assert(!a0.live().contains(f1.ppn.0));
        } else if !f1_new && f2_new {
            assert(!a0.live().contains(f2.ppn.0));
        }
    }
    assert forall|i2: int, j2: int, w: u64|
        #![trigger post.areas@[i2].contains(w), post.areas@[j2].contains(w)]
        0 <= i2 < post.areas@.len() && 0 <= j2 < post.areas@.len() && i2 != j2
            && post.areas@[i2].contains(w) implies !post.areas@[j2].contains(w) by {
        if i2 != i {
            assert(post.areas@[i2] == ms0.areas@[i2]);
        }
        if j2 != i {
            assert(post.areas@[j2] == ms0.areas@[j2]);
        }
        if i2 != i && j2 != i {
        } else if i2 == i {
            if post.areas@[j2].contains(w) {
                if w < aend {
                    assert(ms0.areas@[i].contains(w));
                    assert(!ms0.areas@[j2].contains(w));
                } else {
                    assert(aend <= w < new_end);
                    assert(ms0.areas@[j2].vpn_range.end_val() <= aend
                        || ms0.areas@[j2].vpn_range.start_val() >= new_end);
                }
                assert(false);
            }
        } else {
            if post.areas@[j2].contains(w) {
                if w < aend {
                    assert(ms0.areas@[i].contains(w));
                    assert(!ms0.areas@[i2].contains(w));
                } else {
                    assert(aend <= w < new_end);
                    assert(ms0.areas@[i2].vpn_range.end_val() <= aend
                        || ms0.areas@[i2].vpn_range.start_val() >= new_end);
                }
                assert(false);
            }
        }
    }
    assert forall|w: u64|
        w <= VPN_MASK && (#[trigger] spec_translate(&mem, root, w)) is Some implies post.covers(
        w,
    ) by {
        if aend <= w < aend + k {
            assert(post.areas@[i].contains(w));
        } else {
            assert(spec_translate(&m0, root, w) == spec_translate(&mem, root, w));
            assert(ms0.covers(w));
            if ms0.trampoline is Some && w == VPN_MASK {
            } else {
                let i2 = choose|i2: int|
                    0 <= i2 < ms0.areas@.len() && (#[trigger] ms0.areas@[i2]).contains(w);
                if i2 == i {
                    assert(post.areas@[i].contains(w));
                } else {
                    assert(post.areas@[i2].contains(w));
                }
            }
        }
    }
    if post.trampoline is Some {
        assert(spec_translate(&mem, root, VPN_MASK) == spec_translate(&m0, root, VPN_MASK));
    }
    assert(post.wf(&mem));
    assert forall|q: u64|
        a0.live().contains(q) && !post.owns_page(q) implies #[trigger] mem.page(q) == m0.page(
        q,
    ) by {
        assert(!post.page_table.owned().contains(q));
        if frames_ppn_contains(newfr, q) {
            let k1 = choose|k1: int| 0 <= k1 < newfr.len() && newfr[k1].ppn.0 == q;
            assert(post.areas@[i].data_frames@[old_len + k1].ppn.0 == q);
        }
    }
}

impl MemorySet {
    /// Grows the region whose range starts at the page of `start` so that
    /// it ends at the page boundary at or above `new_end`, allocating and
    /// mapping fresh zeroed frames for the delta.  Returns `Ok(false)`,
    /// changing nothing, when no region starts there; fails only when the
    /// frame allocator runs dry, a fatal kernel condition.
    pub fn append_to(
        &mut self,
        allocator: &mut StackFrameAllocator,
        mem: &mut PhysMemory,
        start: VirtAddr,
        new_end: VirtAddr,
    ) -> (r: Result<bool, PagingError>)
        requires
            old(self).wf(old(mem)),
            old(mem).wf(),
            old(allocator)@.wf(),
            within(old(allocator)@, old(mem)),
            new_end.0 <= u64::MAX - PAGE_SIZE,
            (new_end.0 + PAGE_SIZE - 1) / (PAGE_SIZE as int) <= VPN_MASK,
            forall|q: u64| old(self).owns_page(q) ==> old(allocator)@.live().contains(q),
            forall|i: int|
                0 <= i < old(self).areas@.len() && (#[trigger] old(
                    self,
                ).areas@[i]).vpn_range.start_val() == start.0 / PAGE_SIZE ==> old(
                    self,
                ).areas@[i].map_type is Framed && old(self).areas@[i].vpn_range.end_val() <= (
                new_end.0 + PAGE_SIZE - 1) / (PAGE_SIZE as int),
            forall|i: int, j: int|
                0 <= i < old(self).areas@.len() && 0 <= j < old(self).areas@.len() && j != i && (
                #[trigger] old(self).areas@[i]).vpn_range.start_val() == start.0 / PAGE_SIZE ==> (
                #[trigger] old(self).areas@[j]).vpn_range.end_val() <= old(
                    self,
                ).areas@[i].vpn_range.end_val() || old(self).areas@[j].vpn_range.start_val() >= (
                new_end.0 + PAGE_SIZE - 1) / (PAGE_SIZE as int),
        ensures
            final(self).wf(final(mem)),
            final(mem).wf(),
            final(allocator)@.wf(),
            within(final(allocator)@, final(mem)),
            final(mem).base == old(mem).base,
            final(mem).pages@.len() == old(mem).pages@.len(),
            final(self).page_table.root_ppn == old(self).page_table.root_ppn,
            final(self).trampoline == old(self).trampoline,
            forall|q: u64| old(self).owns_page(q) ==> #[trigger] final(self).owns_page(q),
            forall|q: u64|
                #[trigger] final(self).owns_page(q) ==> old(self).owns_page(q) || !old(
                    allocator,
                )@.live().contains(q),
            forall|q: u64|
                #[trigger] final(self).owns_page(q) ==> final(allocator)@.live().contains(q),
            forall|q: u64|
                old(allocator)@.live().contains(q) ==> #[trigger] final(allocator)@.live().contains(
                    q,
                ),
            forall|q: u64|
                #[trigger] final(allocator)@.live().contains(q) ==> old(allocator)@.live().contains(
                    q,
                ) || final(self).owns_page(q),
            forall|q: u64|
                old(allocator)@.live().contains(q) && !final(self).owns_page(q)
                    ==> #[trigger] final(mem).page(q) == old(mem).page(q),
            forall|q: u64|
                old(self).frames_contain(q) ==> #[trigger] final(mem).page(q) == old(mem).page(
                    q,
                ),
            r matches Ok(found) ==> (found == (find_start_idx(
                old(self).areas@,
                (start.0 / PAGE_SIZE) as int,
                0,
            ) is Some)),
            r == Ok::<bool, PagingError>(false) ==> *final(self) == *old(self) && *final(mem)
                == *old(mem) && final(allocator)@ == old(allocator)@,
            old(allocator)@.free_count() >= 3 * ((new_end.0 + PAGE_SIZE - 1) / (PAGE_SIZE as int)
                - start.0 / PAGE_SIZE) ==> r is Ok,
            r is Err ==> r == Err::<bool, PagingError>(PagingError::OutOfFrames),
            r == Ok::<bool, PagingError>(true) ==> {
                let i = find_start_idx(old(self).areas@, (start.0 / PAGE_SIZE) as int, 0)->Some_0;
                &&& final(self).areas@.len() == old(self).areas@.len()
                &&& forall|j: int|
                    0 <= j < old(self).areas@.len() && j != i ==> final(self).areas@[j] == old(
                        self,
                    ).areas@[j]
                &&& final(self).areas@[i].vpn_range.start_val() == old(
                    self,
                ).areas@[i].vpn_range.start_val()
                &&& final(self).areas@[i].vpn_range.end_val() == (new_end.0 + PAGE_SIZE - 1) / (
                PAGE_SIZE as int)
                &&& final(self).areas@[i].map_type is Framed
                &&& final(self).areas@[i].map_perm == old(self).areas@[i].map_perm
                &&& forall|w: u64|
                    old(self).areas@[i].vpn_range.end_val() <= w < (new_end.0 + PAGE_SIZE - 1) / (
                    PAGE_SIZE as int) ==> #[trigger] spec_translate(
                        final(mem),
                        old(self).page_table.root_ppn.0,
                        w,
                    ) == Some(final(self).areas@[i].entry_for(w))
                &&& forall|w: u64|
                    w <= VPN_MASK && !(old(self).areas@[i].vpn_range.end_val() <= w < (new_end.0
                        + PAGE_SIZE - 1) / (PAGE_SIZE as int)) ==> #[trigger] spec_translate(
                        final(mem),
                        old(self).page_table.root_ppn.0,
                        w,
                    ) == spec_translate(&*old(mem), old(self).page_table.root_ppn.0, w)
            },
    {
        let ghost ms0 = *old(self);
        let ghost m0 = *old(mem);
        let ghost a0 = old(allocator)@;
        let ghost root = old(self).page_table.root_ppn.0;
        let s_vpn = start.floor();
        let e_vpn = new_end.ceil();
        let n_areas = self.areas.len();
        let mut i: usize = 0;
        let mut found: bool = false;
        let mut idx: usize = 0;
        while i < n_areas
            invariant
                ms0 == *old(self),
                *self == ms0,
                n_areas == self.areas@.len(),
                i <= n_areas,
                s_vpn.0 == start.0 / PAGE_SIZE,
                !found ==> forall|j: int|
                    0 <= j < i ==> (#[trigger] self.areas@[j]).vpn_range.start_val() != s_vpn.0,
                found ==> 0 <= idx < i && self.areas@[idx as int].vpn_range.start_val() == s_vpn.0
                    && forall|j: int|
                    0 <= j < idx ==> (#[trigger] self.areas@[j]).vpn_range.start_val() != s_vpn.0,
            decreases n_areas - i,
        {
            if !found && self.areas[i].vpn_range.get_start().0 == s_vpn.0 {
                found = true;
                idx = i;
            }
            i = i + 1;
        }
        proof {
            lemma_find_start_idx(ms0.areas@, s_vpn.0 as int, 0);
            if found {
                assert(find_start_idx(ms0.areas@, s_vpn.0 as int, 0) == Some(idx as int)) by {
                    if find_start_idx(ms0.areas@, s_vpn.0 as int, 0) is None {
                        assert(false);
                    }
                    let i2 = find_start_idx(ms0.areas@, s_vpn.0 as int, 0)->Some_0;
                    if i2 < idx {
                        assert(false);
                    }
                    if i2 > idx {
                        assert(ms0.areas@[idx as int].vpn_range.start_val() != s_vpn.0);
                        assert(false);
                    }
                }
            } else {
                if find_start_idx(ms0.areas@, s_vpn.0 as int, 0) is Some {
                    let i2 = find_start_idx(ms0.areas@, s_vpn.0 as int, 0)->Some_0;
                    assert(ms0.areas@[i2].vpn_range.start_val() == s_vpn.0);
                    assert(false);
                }
            }
        }
        if !found {
            return Ok(false);
        }
        let aend = self.areas[idx].vpn_range.get_end();
        let perm = self.areas[idx].map_perm;
        let ghost dseq = Seq::<u8>::empty();
        proof {
            assert(ms0.areas@[idx as int].area_wf());
            assert(aend.0 <= VPN_MASK);
            assert(ms0.areas@[idx as int].map_type is Framed);
            assert(aend.0 <= e_vpn.0);
        }
        let n = (e_vpn.0 - aend.0) as usize;
        let mut frames: Vec<FrameTracker> = Vec::new();
        let mut k: usize = 0;
        proof {
            assert(frames@ =~= Seq::<FrameTracker>::empty());
            assert forall|q: u64|
                self.page_table.owned().contains(q) || frames_ppn_contains(frames@, q)
                    || ms0.owns_page(q) implies #[trigger] allocator@.live().contains(q) by {
                if self.page_table.owned().contains(q) || ms0.owns_page(q) {
                    assert(ms0.owns_page(q));
                }
            }
            assert forall|i2: int|
                0 <= i2 < ms0.areas@.len() implies (#[trigger] ms0.areas@[i2]).vpn_range.end_val()
                <= aend.0 || ms0.areas@[i2].vpn_range.start_val() >= e_vpn.0 by {
                if i2 != idx as int {
                    assert(ms0.areas@[i2].vpn_range.end_val()
                        <= ms0.areas@[idx as int].vpn_range.end_val()
                        || ms0.areas@[i2].vpn_range.start_val() >= e_vpn.0);
                }
            }
            assert(push_inv(ms0, self.page_table, m0, *mem, a0, allocator@, frames@,
                MapType::Framed, perm, dseq, aend.0, e_vpn.0, 0));
        }
        while k < n
            invariant
                n == e_vpn.0 - aend.0,
                k <= n,
                aend.0 + k <= e_vpn.0,
                dseq == Seq::<u8>::empty(),
                ms0 == *old(self),
                m0 == *old(mem),
                a0 == old(allocator)@,
                self.areas == ms0.areas,
                self.trampoline == ms0.trampoline,
                root == ms0.page_table.root_ppn.0,
                0 <= idx < ms0.areas@.len(),
                ms0.areas@[idx as int].map_type is Framed,
                ms0.areas@[idx as int].vpn_range.end_val() == aend.0,
                ms0.areas@[idx as int].map_perm == perm,
                s_vpn.0 == start.0 / PAGE_SIZE,
                ms0.areas@[idx as int].vpn_range.start_val() == s_vpn.0,
                e_vpn.0 == (new_end.0 + PAGE_SIZE - 1) / (PAGE_SIZE as int),
                find_start_idx(ms0.areas@, s_vpn.0 as int, 0) == Some(idx as int),
                allocator@.free_count() >= a0.free_count() - 3 * (k as int),
                push_inv(ms0, self.page_table, m0, *mem, a0, allocator@, frames@, MapType::Framed,
                    perm, dseq, aend.0, e_vpn.0, k as int),
            decreases n - k,
        {
            let ghost m_it = *mem;
            let ghost a_it = allocator@;
            let ghost frames_it = frames@;
            let vpn = VirtPageNum(aend.0 + k as u64);
            proof {
                assert(spec_translate(mem, root, vpn.0) == spec_translate(&m0, root, vpn.0));
                if spec_translate(&m0, root, vpn.0) is Some {
                    assert(ms0.covers(vpn.0));
                    if ms0.trampoline is Some && vpn.0 == VPN_MASK {
                        assert(false);
                    } else {
                        let i2 = choose|i2: int|
                            0 <= i2 < ms0.areas@.len() && (#[trigger] ms0.areas@[i2]).contains(
                                vpn.0,
                            );
                        assert(false);
                    }
                }
                crate::frame_allocator::lemma_alloc_step(allocator@);
            }
            let fo = frame_alloc(allocator, mem);
            let ppn: PhysPageNum;
            let mut frame_opt: Option<FrameTracker> = None;
            match fo {
                None => {
                    proof {
                        assert(a0.free_count() < 3 * (e_vpn.0 - aend.0));
                    }
                    let merged = self.merge_grown(idx, frames, aend, k);
                    proof {
                        lemma_append_area_final(ms0, *self, m0, *mem, a0, allocator@, idx as int,
                            self.areas@[idx as int], merged@, aend.0, e_vpn.0, k as int);
                        assert forall|q: u64|
                            ms0.frames_contain(q) implies #[trigger] mem.page(q) == m0.page(
                            q,
                        ) by {
                            assert(ms0.owns_page(q));
                            assert(a0.live().contains(q));
                        }
                    }
                    return Err(PagingError::OutOfFrames);
                },
                Some(f) => {
                    proof {
                        assert(mem.bytes(f.ppn.0) =~= page_slice(dseq, k as int));
                        assert(!a_it.live().contains(f.ppn.0));
                        assert(!self.page_table.owned().contains(f.ppn.0));
                        assert forall|q: u64|
                            self.page_table.owned().contains(q) implies #[trigger] mem.page(q)
                            == m_it.page(q) by {
                            assert(q != f.ppn.0);
                        }
                        crate::page_table::lemma_pt_untouched(self.page_table, m_it, *mem);
                    }
                    ppn = f.ppn;
                    frame_opt = Some(f);
                },
            }
            let ghost m_pm = *mem;
            let ghost a_pm = allocator@;
            let ghost pt_pm = self.page_table;
            proof {
                assert(spec_translate(mem, root, vpn.0) is None);
                assert(spec_nodes_needed(mem, root, vpn.0) <= 2);
                assert forall|q: u64|
                    self.page_table.owned().contains(q) implies #[trigger] allocator@.live().contains(
                    q,
                ) by {}
                if ppn.0 > crate::address::PPN_MASK {
                    assert(false);
                }
            }
            let res = self.page_table.map(allocator, mem, vpn, ppn, PTEFlags::new(perm.bits));
            match res {
                Err(_) => {
                    proof {
                        assert(a_pm.free_count() < spec_nodes_needed(&m_pm, root, vpn.0));
                        assert(spec_nodes_needed(&m_pm, root, vpn.0) <= 2);
                        assert(a_pm.free_count() >= a_it.free_count() - 1);
                        assert((k as int) < n as int);
                        assert(a0.free_count() < 3 * (e_vpn.0 - aend.0));
                    }
                    match frame_opt {
                        Some(f) => {
                            proof {
                                crate::frame_allocator::lemma_dealloc_step(allocator@, f.ppn.0);
                                assert(allocator@.live().contains(f.ppn.0));
                            }
                            let dr = crate::frame_allocator::frame_dealloc(allocator, mem, f);
                            proof {
                                assert(dr is Ok);
                                assert forall|q: u64|
                                    self.page_table.owned().contains(q) || frames_ppn_contains(
                                        frames@,
                                        q,
                                    ) || ms0.owns_page(q) implies #[trigger] allocator@.live().contains(
                                    q,
                                ) by {
                                    assert(q != f.ppn.0);
                                }
                            }
                        },
                        None => {},
                    }
                    proof {
                        assert forall|w: u64|
                            w <= VPN_MASK && !(aend.0 <= w < aend.0 + k) implies
                            #[trigger] spec_translate(mem, root, w) == spec_translate(
                            &m0,
                            root,
                            w,
                        ) by {
                            assert(spec_translate(mem, root, w) == spec_translate(&m_pm, root, w));
                            assert(spec_translate(&m_pm, root, w) == spec_translate(
                                &m_it,
                                root,
                                w,
                            ));
                        }
                        assert forall|w: u64|
                            aend.0 <= w < aend.0 + k implies #[trigger] spec_translate(
                            mem,
                            root,
                            w,
                        ) == Some(pushed_entry(MapType::Framed, perm, frames@, aend.0, w)) by {
                            assert(spec_translate(mem, root, w) == spec_translate(&m_pm, root, w));
                            assert(spec_translate(&m_pm, root, w) == spec_translate(
                                &m_it,
                                root,
                                w,
                            ));
                        }
                        assert forall|k1: int|
                            0 <= k1 < k implies mem.is_data(#[trigger] frames@[k1].ppn.0)
                            && mem.bytes(frames@[k1].ppn.0) == page_slice(dseq, k1)
                            && !self.page_table.owned().contains(frames@[k1].ppn.0)
                            && !ms0.owns_page(frames@[k1].ppn.0) && !a0.live().contains(
                            frames@[k1].ppn.0,
                        ) && allocator@.live().contains(frames@[k1].ppn.0) && mem.in_range(
                            frames@[k1].ppn.0,
                        ) by {
                            let q = frames@[k1].ppn.0;
                            assert(a_it.live().contains(q));
                            assert(q != ppn.0);
                            if self.page_table.owned().contains(q) {
                                assert(pt_pm.owned().contains(q) || !a_pm.live().contains(q));
                                assert(false);
                            }
                            assert(mem.page(q) == m_pm.page(q));
                            assert(m_pm.page(q) == m_it.page(q));
                        }
                        assert forall|q: u64|
                            #[trigger] allocator@.live().contains(q) implies a0.live().contains(q)
                                || self.page_table.owned().contains(q) || frames_ppn_contains(
                                frames@,
                                q,
                            ) by {
                            if a_pm.live().contains(q) {
                                if !a_it.live().contains(q) {
                                    assert(q == ppn.0);
                                    assert(false);
                                }
                            } else {
                                assert(self.page_table.owned().contains(q));
                            }
                        }
                        assert forall|q: u64|
                            a0.live().contains(q) && !self.page_table.owned().contains(q)
                                && !frames_ppn_contains(frames@, q) implies #[trigger] mem.page(q)
                            == m0.page(q) by {
                            assert(!pt_pm.owned().contains(q));
                            assert(mem.page(q) == m_pm.page(q));
                            assert(q != ppn.0);
                            assert(m_pm.page(q) == m_it.page(q));
                        }
                        assert(push_inv(ms0, self.page_table, m0, *mem, a0, allocator@, frames@,
                            MapType::Framed, perm, dseq, aend.0, e_vpn.0, k as int));
                    }
                    let merged = self.merge_grown(idx, frames, aend, k);
                    proof {
                        lemma_append_area_final(ms0, *self, m0, *mem, a0, allocator@, idx as int,
                            self.areas@[idx as int], merged@, aend.0, e_vpn.0, k as int);
                        assert forall|q: u64|
                            ms0.frames_contain(q) implies #[trigger] mem.page(q) == m0.page(
                            q,
                        ) by {
                            assert(ms0.owns_page(q));
                            assert(a0.live().contains(q));
                        }
                    }
                    return Err(PagingError::OutOfFrames);
                },
                Ok(()) => {},
            }
            match frame_opt {
                Some(f) => {
                    frames.push(f);
                },
                None => {},
            }
            k = k + 1;
            proof {
                assert forall|w: u64|
                    w <= VPN_MASK && !(aend.0 <= w < aend.0 + k) implies #[trigger] spec_translate(
                    mem,
                    root,
                    w,
                ) == spec_translate(&m0, root, w) by {
                    assert(spec_translate(mem, root, w) == spec_translate(&m_pm, root, w));
                    assert(spec_translate(&m_pm, root, w) == spec_translate(&m_it, root, w));
                }
                assert forall|w: u64|
                    aend.0 <= w < aend.0 + k implies #[trigger] spec_translate(mem, root, w)
                    == Some(pushed_entry(MapType::Framed, perm, frames@, aend.0, w)) by {
                    if w < aend.0 + k - 1 {
                        assert(spec_translate(mem, root, w) == spec_translate(&m_pm, root, w));
                        assert(spec_translate(&m_pm, root, w) == spec_translate(&m_it, root, w));
                        assert(spec_translate(&m_it, root, w) == Some(
                            pushed_entry(MapType::Framed, perm, frames_it, aend.0, w),
                        ));
                        assert(frames@[w - aend.0] == frames_it[w - aend.0]);
                    } else {
                        assert(w == vpn.0);
                        assert(frames@.last().ppn == ppn);
                    }
                }
                assert forall|k1: int|
                    0 <= k1 < k implies mem.is_data(#[trigger] frames@[k1].ppn.0) && mem.bytes(
                    frames@[k1].ppn.0,
                ) == page_slice(dseq, k1) && !self.page_table.owned().contains(frames@[k1].ppn.0)
                    && !ms0.owns_page(frames@[k1].ppn.0) && !a0.live().contains(frames@[k1].ppn.0)
                    && allocator@.live().contains(frames@[k1].ppn.0) && mem.in_range(
                    frames@[k1].ppn.0,
                ) by {
                    let q = frames@[k1].ppn.0;
                    assert(a_pm.live().contains(q));
                    if self.page_table.owned().contains(q) {
                        assert(pt_pm.owned().contains(q) || !a_pm.live().contains(q));
                        if k1 < k - 1 {
                            assert(!pt_pm.owned().contains(q));
                        } else {
                            assert(!a_it.live().contains(q));
                            assert(!pt_pm.owned().contains(q));
                        }
                        assert(false);
                    }
                    assert(mem.page(q) == m_pm.page(q));
                    if k1 < k - 1 {
                        assert(frames@[k1] == frames_it[k1]);
                        assert(m_pm.page(q) == m_it.page(q));
                        if ms0.owns_page(q) {
                            assert(a0.live().contains(q));
                        }
                    } else {
                        if ms0.owns_page(q) {
                            assert(a0.live().contains(q));
                            assert(!a_it.live().contains(q));
                            assert(false);
                        }
                    }
                }
                assert forall|q: u64|
                    self.page_table.owned().contains(q) || frames_ppn_contains(frames@, q)
                        || ms0.owns_page(q) implies #[trigger] allocator@.live().contains(q) by {
                    if frames_ppn_contains(frames@, q) {
                        let k1 = choose|k1: int| 0 <= k1 < frames@.len() && frames@[k1].ppn.0 == q;
                    }
                    if ms0.owns_page(q) {
                        assert(a0.live().contains(q));
                    }
                }
                assert forall|q: u64|
                    #[trigger] allocator@.live().contains(q) implies a0.live().contains(q)
                        || self.page_table.owned().contains(q) || frames_ppn_contains(
                        frames@,
                        q,
                    ) by {
                    if a_pm.live().contains(q) {
                        if !a_it.live().contains(q) {
                            assert(q == ppn.0);
                            assert(frames@[k - 1].ppn.0 == q);
                        } else {
                            if frames_ppn_contains(frames_it, q) {
                                let k1 = choose|k1: int|
                                    0 <= k1 < frames_it.len() && frames_it[k1].ppn.0 == q;
                                assert(frames@[k1].ppn.0 == q);
                            }
                        }
                    } else {
                        assert(self.page_table.owned().contains(q));
                    }
                }
                assert forall|q: u64|
                    a0.live().contains(q) && !self.page_table.owned().contains(q)
                        && !frames_ppn_contains(frames@, q) implies #[trigger] mem.page(q)
                    == m0.page(q) by {
                    assert(!pt_pm.owned().contains(q));
                    assert(mem.page(q) == m_pm.page(q));
                    assert(frames@[k - 1] == frames@.last());
                    assert(q != frames@.last().ppn.0);
                    assert(!frames_ppn_contains(frames_it, q)) by {
                        if frames_ppn_contains(frames_it, q) {
                            let k1 = choose|k1: int|
                                0 <= k1 < frames_it.len() && frames_it[k1].ppn.0 == q;
                            assert(frames@[k1].ppn.0 == q);
                        }
                    }
                    assert(m_pm.page(q) == m_it.page(q));
                }
                assert forall|k1: int, k2: int|
                    #![trigger frames@[k1], frames@[k2]]
                    0 <= k1 < frames@.len() && 0 <= k2 < frames@.len() && k1 != k2 implies frames@[k1].ppn.0
                    != frames@[k2].ppn.0 by {
                    if k1 == k - 1 {
                        assert(frames@[k2] == frames_it[k2]);
                        assert(a_it.live().contains(frames@[k2].ppn.0));
                        assert(!a_it.live().contains(frames@[k1].ppn.0));
                    } else if k2 == k - 1 {
                        assert(frames@[k1] == frames_it[k1]);
                        assert(a_it.live().contains(frames@[k1].ppn.0));
                        assert(!a_it.live().contains(frames@[k2].ppn.0));
                    } else {
                        assert(frames@[k1] == frames_it[k1]);
                        assert(frames@[k2] == frames_it[k2]);
                    }
                }
                assert(push_inv(ms0, self.page_table, m0, *mem, a0, allocator@, frames@,
                    MapType::Framed, perm, dseq, aend.0, e_vpn.0, k as int));
            }
        }
        let merged = self.merge_grown(idx, frames, aend, n);
        proof {
            lemma_append_area_final(ms0, *self, m0, *mem, a0, allocator@, idx as int,
                self.areas@[idx as int], merged@, aend.0, e_vpn.0, n as int);
            assert forall|q: u64|
                ms0.frames_contain(q) implies #[trigger] mem.page(q) == m0.page(q) by {
                assert(ms0.owns_page(q));
                assert(a0.live().contains(q));
            }
            assert(self.areas@[idx as int].vpn_range.end_val() == e_vpn.0);
            assert forall|w: u64|
                aend.0 <= w < e_vpn.0 implies #[trigger] spec_translate(mem, root, w) == Some(
                self.areas@[idx as int].entry_for(w),
            ) by {
                assert(self.areas@[idx as int].mapped(mem, root));
                assert(self.areas@[idx as int].contains(w));
            }
        }
        Ok(true)
    }

    /// Splices the freshly built frames onto the end of region `idx`,
    /// extending its range by `k` pages, and returns the ghost list of the
    /// new frames.
    fn merge_grown(
        &mut self,
        idx: usize,
        frames: Vec<FrameTracker>,
        aend: VirtPageNum,
        k: usize,
    ) -> (newfr: Ghost<Seq<FrameTracker>>)
        requires
            idx < old(self).areas@.len(),
            old(self).areas@[idx as int].vpn_range.start_val() <= aend.0,
            old(self).areas@[idx as int].vpn_range.end_val() == aend.0,
            aend.0 + k <= u64::MAX,
        ensures
            newfr@ == frames@,
            final(self).page_table == old(self).page_table,
            final(self).trampoline == old(self).trampoline,
            final(self).areas@.len() == old(self).areas@.len(),
            forall|j: int|
                0 <= j < old(self).areas@.len() && j != idx ==> final(self).areas@[j] == old(
                    self,
                ).areas@[j],
            final(self).areas@[idx as int].vpn_range.start_val() == old(
                self,
            ).areas@[idx as int].vpn_range.start_val(),
            final(self).areas@[idx as int].vpn_range.end_val() == aend.0 + k,
            final(self).areas@[idx as int].map_type == old(self).areas@[idx as int].map_type,
            final(self).areas@[idx as int].map_perm == old(self).areas@[idx as int].map_perm,
            final(self).areas@[idx as int].data_frames@ == old(
                self,
            ).areas@[idx as int].data_frames@ + frames@,
            final(self).areas@ == old(self).areas@.update(
                idx as int,
                final(self).areas@[idx as int],
            ),
    {
        let ghost newfr = frames@;
        let ghost prev = self.areas@;
        let mut area = self.areas.remove(idx);
        let mut frames = frames;
        area.data_frames.append(&mut frames);
        let new_end = VirtPageNum(aend.0 + k as u64);
        proof {
            assert(area.vpn_range.spec_start().0 <= new_end.0);
        }
        area.vpn_range = VPNRange::new(area.vpn_range.get_start(), new_end);
        self.areas.insert(idx, area);
        proof {
            assert(self.areas@ =~= prev.update(idx as int, self.areas@[idx as int]));
        }
        Ghost(newfr)
    }
}

/// Everything that holds while region `idx` of `ms0` is being retracted
/// from its old end `aend` down toward `ne`, `cnt` pages freed so far.
pub open spec fn shrink_inv(
    ms0: MemorySet,
    pt: PageTable,
    m0: PhysMemory,
    mem: PhysMemory,
    a0: crate::frame_allocator::AllocView,
    av: crate::frame_allocator::AllocView,
    idx: int,
    area: MapArea,
    aend: u64,
    ne: u64,
    cnt: int,
) -> bool {
    let root = ms0.page_table.root_ppn.0;
    let of = ms0.areas@[idx].data_frames@;
    let s_i = ms0.areas@[idx].vpn_range.start_val();
    &&& ms0.wf(&m0)
    &&& m0.wf()
    &&& 0 <= idx < ms0.areas@.len()
    &&& ms0.areas@[idx].map_type is Framed
    &&& ms0.areas@[idx].vpn_range.end_val() == aend
    &&& s_i <= ne <= aend
    &&& 0 <= cnt <= aend - ne
    &&& pt == ms0.page_table
    &&& pt.wf(&mem)
    &&& mem.wf()
    &&& av.wf()
    &&& within(av, &mem)
    &&& mem.base == m0.base
    &&& mem.pages@.len() == m0.pages@.len()
    &&& forall|q: u64| ms0.owns_page(q) ==> #[trigger] a0.live().contains(q)
    &&& area.vpn_range == ms0.areas@[idx].vpn_range
    &&& area.map_type is Framed
    &&& area.map_perm == ms0.areas@[idx].map_perm
    &&& area.data_frames@ == of.subrange(0, of.len() - cnt)
    &&& av.free_count() == a0.free_count() + cnt
    &&& forall|w: u64|
        w <= VPN_MASK && !(aend - cnt <= w < aend) ==> #[trigger] spec_translate(&mem, root, w)
            == spec_translate(&m0, root, w)
    &&& forall|w: u64|
        aend - cnt <= w < aend ==> #[trigger] spec_translate(&mem, root, w) is None
    &&& forall|q: u64| #[trigger] av.live().contains(q) ==> a0.live().contains(q)
    &&& forall|q: u64|
        a0.live().contains(q) ==> #[trigger] av.live().contains(q) || (exists|j: int|
            of.len() - cnt <= j < of.len() && (#[trigger] of[j]).ppn.0 == q)
    &&& forall|j: int|
        of.len() - cnt <= j < of.len() ==> !av.live().contains((#[trigger] of[j]).ppn.0)
    &&& forall|q: u64|
        ms0.owns_page(q) && !(exists|j: int|
            of.len() - cnt <= j < of.len() && (#[trigger] of[j]).ppn.0 == q)
            ==> #[trigger] av.live().contains(q)
    &&& forall|q: u64|
        !pt.owned().contains(q) ==> #[trigger] mem.page(q) == m0.page(q)
}

/// Reinserting the retracted region restores the full invariant: its kept
/// pages and every other region translate as before, the freed range
/// translates to nothing, and the freed frames have left the allocator's
/// live set.
proof fn lemma_shrink_area_final(
    ms0: MemorySet,
    post: MemorySet,
    m0: PhysMemory,
    mem: PhysMemory,
    a0: crate::frame_allocator::AllocView,
    av: crate::frame_allocator::AllocView,
    idx: int,
    shrunk: MapArea,
    aend: u64,
    ne: u64,
)
    requires
        shrink_inv(ms0, post.page_table, m0, mem, a0, av, idx, MapArea {
            vpn_range: ms0.areas@[idx].vpn_range,
            data_frames: shrunk.data_frames,
            map_type: MapType::Framed,
            map_perm: ms0.areas@[idx].map_perm,
        }, aend, ne, aend - ne),
        shrunk.vpn_range.start_val() == ms0.areas@[idx].vpn_range.start_val(),
        shrunk.vpn_range.end_val() == ne,
        shrunk.map_type is Framed,
        shrunk.map_perm == ms0.areas@[idx].map_perm,
        post.areas@ == ms0.areas@.update(idx, shrunk),
        post.trampoline == ms0.trampoline,
    ensures
        post.wf(&mem),
        forall|q: u64| #[trigger] post.owns_page(q) ==> ms0.owns_page(q),
        forall|q: u64|
            ms0.owns_page(q) ==> #[trigger] post.owns_page(q) || !av.live().contains(q),
        forall|q: u64| #[trigger] post.owns_page(q) ==> av.live().contains(q),
        forall|q: u64| #[trigger] av.live().contains(q) ==> a0.live().contains(q),
        forall|q: u64|
            a0.live().contains(q) ==> #[trigger] av.live().contains(q) || ms0.owns_page(q),
        forall|q: u64|
            !post.page_table.owned().contains(q) ==> #[trigger] mem.page(q) == m0.page(q),
{
    let root = ms0.page_table.root_ppn.0;
    let of = ms0.areas@[idx].data_frames@;
    let s_i = ms0.areas@[idx].vpn_range.start_val();
    let cnt = aend - ne;
    let kept = of.subrange(0, of.len() - cnt);
    assert(shrunk.data_frames@ == kept);
    assert(of.len() == aend - s_i);
    // ownership both ways
    assert forall|q: u64| #[trigger] post.owns_page(q) implies ms0.owns_page(q)
        && av.live().contains(q) by {
        if post.frames_contain(q) {
            let (i2, k1) = choose|i2: int, k1: int|
                0 <= i2 < post.areas@.len() && 0 <= k1 < post.areas@[i2].data_frames@.len()
                    && post.areas@[i2].data_frames@[k1].ppn.0 == q;
            if i2 == idx {
                assert(post.areas@[idx].data_frames@[k1] == of[k1]);
                assert(ms0.areas@[idx].data_frames@[k1].ppn.0 == q);
                assert(ms0.frames_contain(q));
                if exists|j: int|
                    of.len() - cnt <= j < of.len() && (#[trigger] of[j]).ppn.0 == q {
                    let j = choose|j: int|
                        of.len() - cnt <= j < of.len() && (#[trigger] of[j]).ppn.0 == q;
                    assert(of[j].ppn.0 == of[k1].ppn.0 && j != k1);
                    assert(false);
                }
            } else {
                assert(ms0.areas@[i2].data_frames@[k1].ppn.0 == q);
                assert(ms0.frames_contain(q));
                if exists|j: int|
                    of.len() - cnt <= j < of.len() && (#[trigger] of[j]).ppn.0 == q {
                    let j = choose|j: int|
                        of.len() - cnt <= j < of.len() && (#[trigger] of[j]).ppn.0 == q;
                    assert(ms0.areas@[idx].data_frames@[j].ppn.0
                        == ms0.areas@[i2].data_frames@[k1].ppn.0);
                    assert(false);
                }
            }
        } else {
            assert(post.page_table.owned().contains(q));
            assert(ms0.owns_page(q));
            if exists|j: int| of.len() - cnt <= j < of.len() && (#[trigger] of[j]).ppn.0 == q {
                let j = choose|j: int|
                    of.len() - cnt <= j < of.len() && (#[trigger] of[j]).ppn.0 == q;
                assert(ms0.frames_contain(q));
                assert(!ms0.page_table.owned().contains(q));
                assert(false);
            }
        }
    }
    assert forall|q: u64|
        ms0.owns_page(q) && av.live().contains(q) implies #[trigger] post.owns_page(q) by {
        if ms0.frames_contain(q) {
            let (i2, k1) = choose|i2: int, k1: int|
                0 <= i2 < ms0.areas@.len() && 0 <= k1 < ms0.areas@[i2].data_frames@.len()
                    && ms0.areas@[i2].data_frames@[k1].ppn.0 == q;
            if i2 == idx {
                if k1 < of.len() - cnt {
                    assert(post.areas@[idx].data_frames@[k1].ppn.0 == q);
                } else {
                    assert(!av.live().contains(of[k1].ppn.0));
                    assert(false);
                }
            } else {
                assert(post.areas@[i2].data_frames@[k1].ppn.0 == q);
            }
        }
    }
    // the shrunk space is well formed
    assert forall|i2: int|
        0 <= i2 < post.areas@.len() implies (#[trigger] post.areas@[i2]).area_wf() by {
        if i2 != idx {
            assert(post.areas@[i2] == ms0.areas@[i2]);
        }
    }
    assert forall|i2: int|
        0 <= i2 < post.areas@.len() implies (#[trigger] post.areas@[i2]).mapped(&mem, root) by {
        if i2 != idx {
            assert(post.areas@[i2] == ms0.areas@[i2]);
            assert forall|w: u64| post.areas@[i2].contains(w) implies #[trigger] spec_translate(
                &mem,
                root,
                w,
            ) == Some(post.areas@[i2].entry_for(w)) by {
                if ne <= w < aend {
                    assert(ms0.areas@[i2].contains(w) && ms0.areas@[idx].contains(w));
                    assert(false);
                }
                assert(w <= VPN_MASK);
                assert(spec_translate(&mem, root, w) == spec_translate(&m0, root, w));
                assert(ms0.areas@[i2].mapped(&m0, root));
            }
        } else {
            assert forall|w: u64| post.areas@[i2].contains(w) implies #[trigger] spec_translate(
                &mem,
                root,
                w,
            ) == Some(post.areas@[i2].entry_for(w)) by {
                assert(s_i <= w < ne);
                assert(!(aend - cnt <= w < aend));
                assert(w <= VPN_MASK);
                assert(spec_translate(&mem, root, w) == spec_translate(&m0, root, w));
                assert(ms0.areas@[idx].mapped(&m0, root));
                assert(ms0.areas@[idx].contains(w));
                assert(post.areas@[idx].data_frames@[w - s_i] == of[w - s_i]);
            }
        }
    }
    assert forall|i2: int, k1: int|
        #![trigger post.areas@[i2].data_frames@[k1]]
        0 <= i2 < post.areas@.len() && 0 <= k1 < post.areas@[i2].data_frames@.len() implies (
    mem.is_data(post.areas@[i2].data_frames@[k1].ppn.0) || mem.is_trap(
        post.areas@[i2].data_frames@[k1].ppn.0,
    )) && !post.page_table.owned().contains(post.areas@[i2].data_frames@[k1].ppn.0) by {
        if i2 != idx {
            assert(post.areas@[i2].data_frames@[k1] == ms0.areas@[i2].data_frames@[k1]);
        } else {
            assert(post.areas@[i2].data_frames@[k1] == of[k1]);
        }
        let q = post.areas@[i2].data_frames@[k1].ppn.0;
        assert(!ms0.page_table.owned().contains(q));
        assert(mem.page(q) == m0.page(q));
    }
    assert forall|i2: int, k1: int, i3: int, k2: int|
        #![trigger post.areas@[i2].data_frames@[k1], post.areas@[i3].data_frames@[k2]]
        0 <= i2 < post.areas@.len() && 0 <= k1 < post.areas@[i2].data_frames@.len() && 0 <= i3
            < post.areas@.len() && 0 <= k2 < post.areas@[i3].data_frames@.len() && (i2 != i3 || k1
            != k2) implies post.areas@[i2].data_frames@[k1].ppn.0
        != post.areas@[i3].data_frames@[k2].ppn.0 by {
        if i2 != idx {
            assert(post.areas@[i2].data_frames@[k1] == ms0.areas@[i2].data_frames@[k1]);
        } else {
            assert(post.areas@[i2].data_frames@[k1] == of[k1]);
        }
        if i3 != idx {
            assert(post.areas@[i3].data_frames@[k2] == ms0.areas@[i3].data_frames@[k2]);
        } else {
            assert(post.areas@[i3].data_frames@[k2] == of[k2]);
        }
    }
    assert forall|w: u64|
        w <= VPN_MASK && (#[trigger] spec_translate(&mem, root, w)) is Some implies post.covers(
        w,
    ) by {
        assert(!(ne <= w < aend));
        assert(spec_translate(&m0, root, w) == spec_translate(&mem, root, w));
        assert(ms0.covers(w));
        if ms0.trampoline is Some && w == VPN_MASK {
        } else {
            let i2 = choose|i2: int|
                0 <= i2 < ms0.areas@.len() && (#[trigger] ms0.areas@[i2]).contains(w);
            if i2 == idx {
                assert(s_i <= w < aend);
                assert(post.areas@[idx].contains(w));
            } else {
                assert(post.areas@[i2].contains(w));
            }
        }
    }
    assert forall|i2: int, j2: int, w: u64|
        #![trigger post.areas@[i2].contains(w), post.areas@[j2].contains(w)]
        0 <= i2 < post.areas@.len() && 0 <= j2 < post.areas@.len() && i2 != j2
            && post.areas@[i2].contains(w) implies !post.areas@[j2].contains(w) by {
        if i2 != idx {
            assert(post.areas@[i2] == ms0.areas@[i2]);
        }
        if j2 != idx {
            assert(post.areas@[j2] == ms0.areas@[j2]);
        }
        if post.areas@[i2].contains(w) {
            if i2 == idx {
                assert(ms0.areas@[idx].contains(w));
            }
        }
        if post.areas@[j2].contains(w) {
            if j2 == idx {
                assert(ms0.areas@[idx].contains(w));
            }
            assert(ms0.areas@[i2].contains(w) && ms0.areas@[j2].contains(w));
            assert(false);
        }
    }
    if post.trampoline is Some {
        assert(spec_translate(&mem, root, VPN_MASK) == spec_translate(&m0, root, VPN_MASK));
    }
    assert(post.wf(&mem));
    assert forall|q: u64|
        ms0.owns_page(q) implies #[trigger] post.owns_page(q) || !av.live().contains(q) by {}
}

impl MemorySet {
    /// Shrinks the region whose range starts at the page of `start` so
    /// that it ends at the page boundary at or above `new_end`, unmapping
    /// the cut pages and returning their frames to the allocator.  Returns
    /// `false`, changing nothing, when no region starts there.
    pub fn shrink_to(
        &mut self,
        allocator: &mut StackFrameAllocator,
        mem: &mut PhysMemory,
        start: VirtAddr,
        new_end: VirtAddr,
    ) -> (r: bool)
        requires
            old(self).wf(old(mem)),
            old(mem).wf(),
            old(allocator)@.wf(),
            within(old(allocator)@, old(mem)),
            new_end.0 <= u64::MAX - PAGE_SIZE,
            forall|q: u64| old(self).owns_page(q) ==> old(allocator)@.live().contains(q),
            forall|i: int|
                0 <= i < old(self).areas@.len() && (#[trigger] old(
                    self,
                ).areas@[i]).vpn_range.start_val() == start.0 / PAGE_SIZE ==> old(
                    self,
                ).areas@[i].map_type is Framed && old(self).areas@[i].vpn_range.start_val() <= (
                new_end.0 + PAGE_SIZE - 1) / (PAGE_SIZE as int) <= old(
                    self,
                ).areas@[i].vpn_range.end_val(),
        ensures
            final(self).wf(final(mem)),
            final(mem).wf(),
            final(allocator)@.wf(),
            within(final(allocator)@, final(mem)),
            final(mem).base == old(mem).base,
            final(mem).pages@.len() == old(mem).pages@.len(),
            final(self).page_table.root_ppn == old(self).page_table.root_ppn,
            final(self).trampoline == old(self).trampoline,
            forall|q: u64| #[trigger] final(self).owns_page(q) ==> old(self).owns_page(q),
            forall|q: u64|
                old(self).owns_page(q) ==> #[trigger] final(self).owns_page(q) || !final(allocator)@.live().contains(
                    q,
                ),
            forall|q: u64|
                #[trigger] final(self).owns_page(q) ==> final(allocator)@.live().contains(q),
            forall|q: u64|
                #[trigger] final(allocator)@.live().contains(q) ==> old(allocator)@.live().contains(
                    q,
                ),
            forall|q: u64|
                old(allocator)@.live().contains(q) ==> #[trigger] final(allocator)@.live().contains(
                    q,
                ) || old(self).owns_page(q),
            forall|q: u64|
                !final(self).page_table.owned().contains(q) ==> #[trigger] final(mem).page(q)
                    == old(mem).page(q),
            r == (find_start_idx(old(self).areas@, (start.0 / PAGE_SIZE) as int, 0) is Some),
            !r ==> *final(self) == *old(self) && *final(mem) == *old(mem) && final(allocator)@
                == old(allocator)@,
            r ==> {
                let i = find_start_idx(old(self).areas@, (start.0 / PAGE_SIZE) as int, 0)->Some_0;
                &&& final(self).areas@.len() == old(self).areas@.len()
                &&& forall|j: int|
                    0 <= j < old(self).areas@.len() && j != i ==> final(self).areas@[j] == old(
                        self,
                    ).areas@[j]
                &&& final(self).areas@[i].vpn_range.start_val() == old(
                    self,
                ).areas@[i].vpn_range.start_val()
                &&& final(self).areas@[i].vpn_range.end_val() == (new_end.0 + PAGE_SIZE - 1) / (
                PAGE_SIZE as int)
                &&& final(self).areas@[i].map_type == old(self).areas@[i].map_type
                &&& final(self).areas@[i].map_perm == old(self).areas@[i].map_perm
                &&& final(allocator)@.free_count() == old(allocator)@.free_count() + old(
                    self,
                ).areas@[i].vpn_range.end_val() - (new_end.0 + PAGE_SIZE - 1) / (PAGE_SIZE as int)
                &&& forall|w: u64|
                    (new_end.0 + PAGE_SIZE - 1) / (PAGE_SIZE as int) <= w < old(
                        self,
                    ).areas@[i].vpn_range.end_val() ==> #[trigger] spec_translate(
                        final(mem),
                        old(self).page_table.root_ppn.0,
                        w,
                    ) is None
                &&& forall|w: u64|
                    w <= VPN_MASK && !(old(self).areas@[i].vpn_range.end_val() - (old(
                        self,
                    ).areas@[i].vpn_range.end_val() - (new_end.0 + PAGE_SIZE - 1) / (
                    PAGE_SIZE as int)) <= w < old(self).areas@[i].vpn_range.end_val())
                        ==> #[trigger] spec_translate(
                        final(mem),
                        old(self).page_table.root_ppn.0,
                        w,
                    ) == spec_translate(&*old(mem), old(self).page_table.root_ppn.0, w)
            },
    {
        let ghost ms0 = *old(self);
        let ghost m0 = *old(mem);
        let ghost a0 = old(allocator)@;
        let ghost root = old(self).page_table.root_ppn.0;
        let s_vpn = start.floor();
        let ne_vpn = new_end.ceil();
        let n_areas = self.areas.len();
        let mut i: usize = 0;
        let mut found: bool = false;
        let mut idx: usize = 0;
        while i < n_areas
            invariant
                ms0 == *old(self),
                *self == ms0,
                n_areas == self.areas@.len(),
                i <= n_areas,
                s_vpn.0 == start.0 / PAGE_SIZE,
                !found ==> forall|j: int|
                    0 <= j < i ==> (#[trigger] self.areas@[j]).vpn_range.start_val() != s_vpn.0,
                found ==> 0 <= idx < i && self.areas@[idx as int].vpn_range.start_val() == s_vpn.0
                    && forall|j: int|
                    0 <= j < idx ==> (#[trigger] self.areas@[j]).vpn_range.start_val() != s_vpn.0,
            decreases n_areas - i,
        {
            if !found && self.areas[i].vpn_range.get_start().0 == s_vpn.0 {
                found = true;
                idx = i;
            }
            i = i + 1;
        }
        proof {
            lemma_find_start_idx(ms0.areas@, s_vpn.0 as int, 0);
            if found {
                assert(find_start_idx(ms0.areas@, s_vpn.0 as int, 0) == Some(idx as int)) by {
                    if find_start_idx(ms0.areas@, s_vpn.0 as int, 0) is None {
                        assert(false);
                    }
                    let i2 = find_start_idx(ms0.areas@, s_vpn.0 as int, 0)->Some_0;
                    if i2 < idx {
                        assert(false);
                    }
                    if i2 > idx {
                        assert(ms0.areas@[idx as int].vpn_range.start_val() != s_vpn.0);
                        assert(false);
                    }
                }
            } else {
                if find_start_idx(ms0.areas@, s_vpn.0 as int, 0) is Some {
                    let i2 = find_start_idx(ms0.areas@, s_vpn.0 as int, 0)->Some_0;
                    assert(ms0.areas@[i2].vpn_range.start_val() == s_vpn.0);
                    assert(false);
                }
            }
        }
        if !found {
            return false;
        }
        let ghost prev_areas = self.areas@;
        let mut area = self.areas.remove(idx);
        let aend = area.vpn_range.get_end();
        proof {
            assert(ms0.areas@[idx as int].area_wf());
            assert(ne_vpn.0 <= aend.0);
            assert(aend.0 <= VPN_MASK);
        }
        let total = (aend.0 - ne_vpn.0) as usize;
        let mut cnt: usize = 0;
        proof {
            assert(self.areas@ =~= prev_areas.remove(idx as int));
            assert(area.data_frames@ =~= ms0.areas@[idx as int].data_frames@.subrange(
                0,
                ms0.areas@[idx as int].data_frames@.len() as int,
            ));
            assert(shrink_inv(ms0, self.page_table, m0, *mem, a0, allocator@, idx as int, area,
                aend.0, ne_vpn.0, 0));
        }
        while cnt < total
            invariant
                total == aend.0 - ne_vpn.0,
                cnt <= total,
                ms0 == *old(self),
                m0 == *old(mem),
                a0 == old(allocator)@,
                root == ms0.page_table.root_ppn.0,
                0 <= idx < ms0.areas@.len(),
                self.areas@ == ms0.areas@.remove(idx as int),
                self.trampoline == ms0.trampoline,
                s_vpn.0 == start.0 / PAGE_SIZE,
                ne_vpn.0 == (new_end.0 + PAGE_SIZE - 1) / (PAGE_SIZE as int),
                find_start_idx(ms0.areas@, s_vpn.0 as int, 0) == Some(idx as int),
                aend.0 == ms0.areas@[idx as int].vpn_range.end_val(),
                shrink_inv(ms0, self.page_table, m0, *mem, a0, allocator@, idx as int, area,
                    aend.0, ne_vpn.0, cnt as int),
            decreases total - cnt,
        {
            let ghost of = ms0.areas@[idx as int].data_frames@;
            let vpn = VirtPageNum(aend.0 - 1 - cnt as u64);
            proof {
                assert(!(aend.0 - cnt <= vpn.0 < aend.0));
                assert(spec_translate(mem, root, vpn.0) == spec_translate(&m0, root, vpn.0));
                assert(ms0.areas@[idx as int].mapped(&m0, root));
                assert(ms0.areas@[idx as int].contains(vpn.0));
                assert(spec_translate(&m0, root, vpn.0) is Some);
            }
            let ghost m_it = *mem;
            let ghost a_it = allocator@;
            let ur = self.page_table.unmap(mem, vpn);
            proof {
                assert(ur is Ok);
            }
            let fopt = area.data_frames.pop();
            let f = match fopt {
                Some(f) => f,
                None => {
                    proof {
                        assert(false);
                    }
                    FrameTracker { ppn: PhysPageNum(0) }
                },
            };
            proof {
                assert(f == of[of.len() - cnt - 1]);
                assert(a_it.live().contains(f.ppn.0)) by {
                    assert(ms0.frames_contain(f.ppn.0));
                    assert(ms0.owns_page(f.ppn.0));
                    if exists|j: int|
                        of.len() - cnt <= j < of.len() && (#[trigger] of[j]).ppn.0 == f.ppn.0 {
                        let j = choose|j: int|
                            of.len() - cnt <= j < of.len() && (#[trigger] of[j]).ppn.0 == f.ppn.0;
                        assert(of[j].ppn.0 == of[of.len() - cnt - 1].ppn.0);
                        assert(false);
                    }
                }
                crate::frame_allocator::lemma_dealloc_step(allocator@, f.ppn.0);
                assert(mem.in_range(f.ppn.0)) by {
                    assert(mem.is_data(f.ppn.0) || mem.is_trap(f.ppn.0));
                }
            }
            let ghost fp = f.ppn.0;
            let dr = crate::frame_allocator::frame_dealloc(allocator, mem, f);
            cnt = cnt + 1;
            proof {
                assert(dr is Ok);
                assert(area.data_frames@ =~= of.subrange(0, of.len() - cnt));
                assert forall|w: u64|
                    w <= VPN_MASK && !(aend.0 - cnt <= w < aend.0) implies #[trigger] spec_translate(
                    mem,
                    root,
                    w,
                ) == spec_translate(&m0, root, w) by {
                    assert(w != vpn.0);
                    assert(spec_translate(mem, root, w) == spec_translate(&m_it, root, w));
                }
                assert forall|w: u64|
                    aend.0 - cnt <= w < aend.0 implies #[trigger] spec_translate(
                    mem,
                    root,
                    w,
                ) is None by {
                    if w != vpn.0 {
                        assert(spec_translate(mem, root, w) == spec_translate(&m_it, root, w));
                    }
                }
                assert forall|q: u64|
                    a0.live().contains(q) implies #[trigger] allocator@.live().contains(q) || (
                exists|j: int|
                    of.len() - cnt <= j < of.len() && (#[trigger] of[j]).ppn.0 == q) by {
                    if q != fp {
                        if !a_it.live().contains(q) {
                            let j = choose|j: int|
                                of.len() - (cnt - 1) <= j < of.len() && (#[trigger] of[j]).ppn.0
                                    == q;
                            assert(of[j].ppn.0 == q && of.len() - cnt <= j < of.len());
                        }
                    } else {
                        assert(of[of.len() - cnt].ppn.0 == q);
                    }
                }
                assert forall|j: int|
                    of.len() - cnt <= j < of.len() implies !allocator@.live().contains(
                    (#[trigger] of[j]).ppn.0,
                ) by {
                    if j == of.len() - cnt {
                        assert(of[j].ppn.0 == fp);
                    } else {
                        assert(!a_it.live().contains(of[j].ppn.0));
                    }
                }
                assert forall|q: u64|
                    ms0.owns_page(q) && !(exists|j: int|
                        of.len() - cnt <= j < of.len() && (#[trigger] of[j]).ppn.0 == q) implies
                    #[trigger] allocator@.live().contains(q) by {
                    assert(q != fp) by {
                        if q == fp {
                            assert(of[of.len() - cnt].ppn.0 == q);
                        }
                    }
                    assert(a_it.live().contains(q)) by {
                        if exists|j: int|
                            of.len() - (cnt - 1) <= j < of.len() && (#[trigger] of[j]).ppn.0
                                == q {
                            let j = choose|j: int|
                                of.len() - (cnt - 1) <= j < of.len() && (#[trigger] of[j]).ppn.0
                                    == q;
                            assert(of.len() - cnt <= j < of.len());
                            assert(false);
                        }
                    }
                }
                assert(shrink_inv(ms0, self.page_table, m0, *mem, a0, allocator@, idx as int,
                    area, aend.0, ne_vpn.0, cnt as int));
            }
        }
        proof {
            assert(area.vpn_range.spec_start().0 <= ne_vpn.0);
        }
        area.vpn_range = VPNRange::new(area.vpn_range.get_start(), ne_vpn);
        let ghost pre_insert = self.areas@;
        self.areas.insert(idx, area);
        proof {
            assert(self.areas@ =~= ms0.areas@.update(idx as int, self.areas@[idx as int]));
            lemma_shrink_area_final(ms0, *self, m0, *mem, a0, allocator@, idx as int,
                self.areas@[idx as int], aend.0, ne_vpn.0);
        }
        true
    }
}

/// Why a task's address space could not be built from its image.
#[derive(Clone, Copy, Debug, PartialEq, Eq, Structural)]
pub enum LoadError {
    /// The image is not one the kernel accepts.
    BadImage,
    /// The frame allocator ran dry: a fatal kernel condition.
    OutOfFrames,
}

/// Everything that holds of a space under construction: it is intact, all
/// of its pages are freshly allocated, nothing that was live before has
/// been touched, and the allocator accounts for exactly the old owners
/// plus this space.
pub open spec fn build_inv(
    ms: MemorySet,
    mem: &PhysMemory,
    m0: &PhysMemory,
    a0: crate::frame_allocator::AllocView,
    av: crate::frame_allocator::AllocView,
) -> bool {
    &&& ms.wf(mem)
    &&& mem.wf()
    &&& av.wf()
    &&& within(av, mem)
    &&& mem.base == m0.base
    &&& mem.pages@.len() == m0.pages@.len()
    &&& forall|q: u64| #[trigger] ms.owns_page(q) ==> av.live().contains(q)
    &&& forall|q: u64| #[trigger] ms.owns_page(q) ==> !a0.live().contains(q)
    &&& forall|q: u64| a0.live().contains(q) ==> #[trigger] av.live().contains(q)
    &&& forall|q: u64|
        #[trigger] av.live().contains(q) ==> a0.live().contains(q) || ms.owns_page(q)
    &&& forall|q: u64| a0.live().contains(q) ==> #[trigger] mem.page(q) == m0.page(q)
}

/// One build step keeps the construction invariant.
proof fn lemma_build_step(
    ms1: MemorySet,
    ms2: MemorySet,
    m0: PhysMemory,
    m1: PhysMemory,
    m2: PhysMemory,
    a0: crate::frame_allocator::AllocView,
    a1: crate::frame_allocator::AllocView,
    a2: crate::frame_allocator::AllocView,
)
    requires
        build_inv(ms1, &m1, &m0, a0, a1),
        ms2.wf(&m2),
        m2.wf(),
        a2.wf(),
        within(a2, &m2),
        m2.base == m1.base,
        m2.pages@.len() == m1.pages@.len(),
        forall|q: u64| #[trigger] ms2.owns_page(q) ==> ms1.owns_page(q) || !a1.live().contains(q),
        forall|q: u64| #[trigger] ms2.owns_page(q) ==> a2.live().contains(q),
        forall|q: u64| a1.live().contains(q) ==> #[trigger] a2.live().contains(q),
        forall|q: u64|
            #[trigger] a2.live().contains(q) ==> a1.live().contains(q) || ms2.owns_page(q),
        forall|q: u64|
            a1.live().contains(q) && !ms2.owns_page(q) ==> #[trigger] m2.page(q) == m1.page(q),
        forall|q: u64| ms1.owns_page(q) ==> #[trigger] ms2.owns_page(q),
    ensures
        build_inv(ms2, &m2, &m0, a0, a2),
{
    assert forall|q: u64| a0.live().contains(q) implies #[trigger] m2.page(q) == m0.page(q) by {
        assert(a1.live().contains(q));
        assert(!ms2.owns_page(q)) by {
            if ms2.owns_page(q) {
                assert(ms1.owns_page(q) || !a1.live().contains(q));
                assert(ms1.owns_page(q));
                assert(!a0.live().contains(q));
            }
        }
        assert(m2.page(q) == m1.page(q));
        assert(m1.page(q) == m0.page(q));
    }
    assert forall|q: u64| #[trigger] ms2.owns_page(q) implies !a0.live().contains(q) by {
        if a0.live().contains(q) {
            assert(a1.live().contains(q));
            assert(ms1.owns_page(q));
            assert(!a0.live().contains(q));
        }
    }
}

impl MemorySet {
    /// Builds one task's address space from its program image: one framed
    /// region per loadable segment filled from the image, a guard page, the
    /// user stack, an empty heap region at the stack top, the trap-context
    /// page just below the trampoline, and the trampoline itself.  Returns
    /// the space, the initial user stack pointer and the entry point.
    #[verifier::rlimit(100)]
    pub fn from_elf(
        allocator: &mut StackFrameAllocator,
        mem: &mut PhysMemory,
        elf_data: &[u8],
        strampoline: PhysPageNum,
    ) -> (r: Result<(MemorySet, u64, u64), LoadError>)
        requires
            old(mem).wf(),
            old(allocator)@.wf(),
            within(old(allocator)@, old(mem)),
            strampoline.0 <= crate::address::PPN_MASK,
        ensures
            final(mem).wf(),
            final(allocator)@.wf(),
            within(final(allocator)@, final(mem)),
            final(mem).base == old(mem).base,
            final(mem).pages@.len() == old(mem).pages@.len(),
            forall|q: u64|
                old(allocator)@.live().contains(q) ==> #[trigger] final(allocator)@.live().contains(
                    q,
                ),
            forall|q: u64|
                old(allocator)@.live().contains(q) ==> #[trigger] final(mem).page(q) == old(
                    mem,
                ).page(q),
            r == Err::<(MemorySet, u64, u64), LoadError>(LoadError::BadImage) <==> !crate::elf::image_ok(
                elf_data@,
            ),
            r == Err::<(MemorySet, u64, u64), LoadError>(LoadError::BadImage) ==> *final(mem)
                == *old(mem) && final(allocator)@ == old(allocator)@,
            crate::elf::image_ok(elf_data@) && old(allocator)@.free_count()
                >= crate::elf::image_frames_needed(elf_data@) ==> r is Ok,
            final(allocator)@.free_count() >= old(allocator)@.free_count()
                - crate::elf::image_frames_needed(elf_data@),
            r matches Ok(t) ==> {
                let areas = t.0.areas@;
                let n = areas.len() as int;
                let hp = (t.1 / PAGE_SIZE) as int;
                &&& t.0.wf(final(mem))
                &&& build_inv(t.0, final(mem), &*old(mem), old(allocator)@, final(allocator)@)
                &&& t.2 == crate::elf::le64(elf_data@, 24)
                &&& t.1 == (crate::elf::image_end_page(elf_data@) + 1
                    + crate::config::USER_STACK_SIZE / PAGE_SIZE) * PAGE_SIZE
                &&& t.0.trampoline == Some(strampoline)
                &&& spec_translate(final(mem), t.0.page_table.root_ppn.0, (VPN_MASK - 1) as u64)
                    is Some
                &&& t.1 % PAGE_SIZE == 0
                &&& t.1 <= (VPN_MASK - 2) * PAGE_SIZE
                &&& n >= 3
                &&& find_start_idx(areas, hp, 0) == Some(n - 2)
                &&& areas[n - 2].map_type is Framed
                &&& areas[n - 2].vpn_range.start_val() == hp
                &&& areas[n - 2].vpn_range.end_val() == hp
                &&& forall|j: int|
                    0 <= j < n && j != n - 2 ==> (#[trigger] areas[j]).vpn_range.start_val() != hp
                        && (areas[j].vpn_range.end_val() <= hp || areas[j].vpn_range.start_val()
                        >= VPN_MASK - 1)
                &&& areas[n - 1].map_type is Framed
                &&& areas[n - 1].vpn_range.start_val() == VPN_MASK - 1
                &&& areas[n - 1].vpn_range.end_val() == VPN_MASK
            },
    {
        let ghost m0 = *old(mem);
        let ghost a0 = old(allocator)@;
        let ghost d = elf_data@;
        let img = match crate::elf::parse_app_image(elf_data) {
            None => {
                proof {
                    crate::elf::lemma_segs_pages_bounds(
                        d,
                        crate::elf::load_segs(d, crate::elf::ph_count(d)),
                        0,
                        0,
                    );
                }
                return Err(LoadError::BadImage);
            },
            Some(i) => i,
        };
        proof {
            crate::elf::lemma_segs_pages_bounds(d, img.segments@, 0, 0);
        }
        let mut ms = match MemorySet::new_bare(allocator, mem) {
            Err(_) => {
                return Err(LoadError::OutOfFrames);
            },
            Ok(m) => m,
        };
        proof {
            assert(build_inv(ms, mem, &m0, a0, allocator@));
        }
        let ghost ms_a = ms;
        let ghost m_a = *mem;
        let ghost a_a = allocator@;
        match ms.map_trampoline(allocator, mem, strampoline) {
            Err(_) => {
                return Err(LoadError::OutOfFrames);
            },
            Ok(()) => {},
        }
        proof {
            lemma_build_step(ms_a, ms, m0, m_a, *mem, a0, a_a, allocator@);
        }
        let image_len = elf_data.len();
        let nsegs = img.segments.len();
        let mut si: usize = 0;
        let mut max_end: u64 = 0;
        while si < nsegs
            invariant
                m0 == *old(mem),
                a0 == old(allocator)@,
                d == elf_data@,
                crate::elf::image_ok(d),
                img.segments@ == crate::elf::load_segs(d, crate::elf::ph_count(d)),
                nsegs == img.segments@.len(),
                si <= nsegs,
                image_len == elf_data@.len(),
                build_inv(ms, mem, &m0, a0, allocator@),
                ms.trampoline == Some(strampoline),
                ms.page_table.root_ppn == ms_a.page_table.root_ppn,
                crate::elf::segs_ok_from(d, img.segments@, si as int, max_end as int),
                si == 0 ==> max_end == 0,
                si > 0 ==> max_end == crate::elf::seg_end_page(img.segments@[si - 1]),
                max_end <= crate::elf::MAX_SEGMENT_VA / PAGE_SIZE,
                forall|i: int|
                    0 <= i < ms.areas@.len() ==> (#[trigger] ms.areas@[i]).vpn_range.end_val()
                        <= max_end,
                ms.areas@.len() == si,
                allocator@.free_count() >= a0.free_count() - 3 - 3 * (crate::elf::segs_pages_from(
                    img.segments@,
                    0,
                ) - crate::elf::segs_pages_from(img.segments@, si as int)),
            decreases nsegs - si,
        {
            let s = img.segments[si];
            proof {
                assert(crate::elf::seg_ok(d, s, max_end as int));
                crate::elf::lemma_segs_pages_bounds(d, img.segments@, si as int, max_end as int);
                crate::elf::lemma_segs_pages_bounds(
                    d,
                    img.segments@,
                    si + 1,
                    crate::elf::seg_end_page(s),
                );
            }
            let start_vpn = VirtPageNum(s.start_va / PAGE_SIZE);
            let end_vpn = VirtPageNum((s.start_va + s.mem_size + (PAGE_SIZE - 1)) / PAGE_SIZE);
            let mut pb: u8 = MAP_PERM_U;
            if s.flags & crate::elf::SEG_FLAG_R != 0 {
                pb = pb | MAP_PERM_R;
            }
            if s.flags & crate::elf::SEG_FLAG_W != 0 {
                pb = pb | MAP_PERM_W;
            }
            if s.flags & crate::elf::SEG_FLAG_X != 0 {
                pb = pb | MAP_PERM_X;
            }
            let off = s.offset as usize;
            let fsz = s.file_size as usize;
            let seg_data = vstd::slice::slice_subrange(elf_data, off, off + fsz);
            let ghost ms_b = ms;
            let ghost m_b = *mem;
            let ghost a_b = allocator@;
            let res = ms.push_area(
                allocator,
                mem,
                start_vpn,
                end_vpn,
                MapType::Framed,
                MapPermission::new(pb),
                Some(seg_data),
            );
            match res {
                Err(_) => {
                    return Err(LoadError::OutOfFrames);
                },
                Ok(()) => {},
            }
            proof {
                lemma_build_step(ms_b, ms, m0, m_b, *mem, a0, a_b, allocator@);
                assert((s.start_va + s.mem_size + PAGE_SIZE - 1) / (PAGE_SIZE as int)
                    <= crate::elf::MAX_SEGMENT_VA / PAGE_SIZE) by {
                    vstd::arithmetic::div_mod::lemma_div_is_ordered(
                        s.start_va + s.mem_size + PAGE_SIZE - 1,
                        crate::elf::MAX_SEGMENT_VA + PAGE_SIZE - 1,
                        PAGE_SIZE as int,
                    );
                }
            }
            max_end = (s.start_va + s.mem_size + (PAGE_SIZE - 1)) / PAGE_SIZE;
            si = si + 1;
        }
        proof {
            if nsegs == 0 {
                assert(max_end == crate::elf::image_end_page(d));
            } else {
                assert(img.segments@[nsegs - 1] == img.segments@.last());
                assert(max_end == crate::elf::image_end_page(d));
            }
            assert(crate::elf::segs_pages_from(img.segments@, nsegs as int) == 0);
        }
        // one guard page, then the user stack
        let stack_pages = USER_STACK_SIZE / PAGE_SIZE;
        let stack_bottom = max_end + 1;
        let stack_top = stack_bottom + stack_pages;
        let ghost ms_c = ms;
        let ghost m_c = *mem;
        let ghost a_c = allocator@;
        match ms.push_area(
            allocator,
            mem,
            VirtPageNum(stack_bottom),
            VirtPageNum(stack_top),
            MapType::Framed,
            MapPermission::new(MAP_PERM_R | MAP_PERM_W | MAP_PERM_U),
            None,
        ) {
            Err(_) => {
                return Err(LoadError::OutOfFrames);
            },
            Ok(()) => {},
        }
        proof {
            lemma_build_step(ms_c, ms, m0, m_c, *mem, a0, a_c, allocator@);
        }
        // the heap region starts empty at the stack top
        let ghost ms_d = ms;
        let ghost m_d = *mem;
        let ghost a_d = allocator@;
        match ms.push_area(
            allocator,
            mem,
            VirtPageNum(stack_top),
            VirtPageNum(stack_top),
            MapType::Framed,
            MapPermission::new(MAP_PERM_R | MAP_PERM_W | MAP_PERM_U),
            None,
        ) {
            Err(_) => {
                return Err(LoadError::OutOfFrames);
            },
            Ok(()) => {},
        }
        proof {
            lemma_build_step(ms_d, ms, m0, m_d, *mem, a0, a_d, allocator@);
        }
        // the trap-context page, kernel-only, just below the trampoline
        let ghost ms_e = ms;
        let ghost m_e = *mem;
        let ghost a_e = allocator@;
        match ms.push_area(
            allocator,
            mem,
            VirtPageNum(VPN_MASK - 1),
            VirtPageNum(VPN_MASK),
            MapType::Framed,
            MapPermission::new(MAP_PERM_R | MAP_PERM_W),
            None,
        ) {
            Err(_) => {
                return Err(LoadError::OutOfFrames);
            },
            Ok(()) => {},
        }
        proof {
            lemma_build_step(ms_e, ms, m0, m_e, *mem, a0, a_e, allocator@);
            assert(spec_translate(mem, ms.page_table.root_ppn.0, (VPN_MASK - 1) as u64) is Some);
            let areas = ms.areas@;
            let n = areas.len() as int;
            assert(n == nsegs + 3);
            assert(areas[n - 2].vpn_range.start_val() == stack_top);
            assert(areas[n - 2].vpn_range.end_val() == stack_top);
            assert(areas[n - 2].map_type is Framed);
            assert forall|j: int| 0 <= j < n - 2 implies (#[trigger] areas[j]).vpn_range.start_val()
                != stack_top && areas[j].vpn_range.end_val() <= stack_top by {
                if j < nsegs {
                    assert(areas[j].vpn_range.end_val() <= max_end);
                    assert(areas[j].area_wf());
                } else {
                    assert(areas[j].vpn_range.start_val() == stack_bottom);
                    assert(areas[j].vpn_range.end_val() == stack_top);
                }
            }
            assert(areas[n - 1].vpn_range.start_val() == VPN_MASK - 1);
            assert(stack_top < VPN_MASK - 1);
            lemma_find_at(areas, stack_top as int, n - 2);
        }
        let user_sp = stack_top * PAGE_SIZE;
        Ok((ms, user_sp, entry_of(img)))
    }
}

/// The entry point an image names.
fn entry_of(img: crate::elf::AppImage) -> (r: u64)
    ensures
        r == img.entry,
{
    img.entry
}

/// Frames that always suffice to build the kernel space over the given
/// section bounds: the root node, the trampoline path, and the block
/// budget of each of the five identically mapped regions.
pub open spec fn kernel_space_budget(
    stext: u64,
    etext: u64,
    srodata: u64,
    erodata: u64,
    sdata: u64,
    edata: u64,
    sbss: u64,
    ebss: u64,
    ekernel: u64,
    mem_end: u64,
) -> int {
    3 + push_budget(
        MapType::Identical,
        (stext / PAGE_SIZE) as u64,
        (etext + PAGE_SIZE - 1) / (PAGE_SIZE as int) - stext / PAGE_SIZE,
    ) + push_budget(
        MapType::Identical,
        (srodata / PAGE_SIZE) as u64,
        (erodata + PAGE_SIZE - 1) / (PAGE_SIZE as int) - srodata / PAGE_SIZE,
    ) + push_budget(
        MapType::Identical,
        (sdata / PAGE_SIZE) as u64,
        (edata + PAGE_SIZE - 1) / (PAGE_SIZE as int) - sdata / PAGE_SIZE,
    ) + push_budget(
        MapType::Identical,
        (sbss / PAGE_SIZE) as u64,
        (ebss + PAGE_SIZE - 1) / (PAGE_SIZE as int) - sbss / PAGE_SIZE,
    ) + push_budget(
        MapType::Identical,
        (ekernel / PAGE_SIZE) as u64,
        (mem_end + PAGE_SIZE - 1) / (PAGE_SIZE as int) - ekernel / PAGE_SIZE,
    )
}

impl MemorySet {
    /// Builds the kernel's own address space: identical mappings for the
    /// kernel's code, read-only data, data and zero-initialized sections,
    /// an identical mapping of the remaining physical memory, and the
    /// trampoline page.  The sections arrive as their bounds, in ascending
    /// order.
    #[verifier::rlimit(60)]
    pub fn new_kernel(
        allocator: &mut StackFrameAllocator,
        mem: &mut PhysMemory,
        stext: u64,
        etext: u64,
        srodata: u64,
        erodata: u64,
        sdata: u64,
        edata: u64,
        sbss: u64,
        ebss: u64,
        ekernel: u64,
        mem_end: u64,
        strampoline: PhysPageNum,
    ) -> (r: Result<MemorySet, PagingError>)
        requires
            old(mem).wf(),
            old(allocator)@.wf(),
            within(old(allocator)@, old(mem)),
            strampoline.0 <= crate::address::PPN_MASK,
            stext / PAGE_SIZE <= (etext + PAGE_SIZE - 1) / (PAGE_SIZE as int) <= srodata
                / PAGE_SIZE,
            (erodata + PAGE_SIZE - 1) / (PAGE_SIZE as int) <= sdata / PAGE_SIZE,
            srodata / PAGE_SIZE <= (erodata + PAGE_SIZE - 1) / (PAGE_SIZE as int),
            sdata / PAGE_SIZE <= (edata + PAGE_SIZE - 1) / (PAGE_SIZE as int) <= sbss / PAGE_SIZE,
            sbss / PAGE_SIZE <= (ebss + PAGE_SIZE - 1) / (PAGE_SIZE as int) <= ekernel
                / PAGE_SIZE,
            ekernel / PAGE_SIZE <= (mem_end + PAGE_SIZE - 1) / (PAGE_SIZE as int) <= VPN_MASK,
            etext <= u64::MAX - PAGE_SIZE,
            erodata <= u64::MAX - PAGE_SIZE,
            edata <= u64::MAX - PAGE_SIZE,
            ebss <= u64::MAX - PAGE_SIZE,
            mem_end <= u64::MAX - PAGE_SIZE,
        ensures
            final(mem).wf(),
            final(allocator)@.wf(),
            within(final(allocator)@, final(mem)),
            final(mem).base == old(mem).base,
            final(mem).pages@.len() == old(mem).pages@.len(),
            forall|q: u64|
                old(allocator)@.live().contains(q) ==> #[trigger] final(allocator)@.live().contains(
                    q,
                ),
            forall|q: u64|
                old(allocator)@.live().contains(q) ==> #[trigger] final(mem).page(q) == old(
                    mem,
                ).page(q),
            r is Err ==> r == Err::<MemorySet, PagingError>(PagingError::OutOfFrames),
            old(allocator)@.free_count() >= kernel_space_budget(stext, etext, srodata, erodata,
                sdata, edata, sbss, ebss, ekernel, mem_end) ==> r is Ok,
            r matches Ok(ms) ==> {
                &&& ms.wf(final(mem))
                &&& build_inv(ms, final(mem), &*old(mem), old(allocator)@, final(allocator)@)
                &&& ms.trampoline == Some(strampoline)
                &&& ms.areas@.len() == 5
                &&& ms.areas@[0].map_type is Identical
                &&& ms.areas@[0].vpn_range.start_val() == stext / PAGE_SIZE
                &&& ms.areas@[0].vpn_range.end_val() == (etext + PAGE_SIZE - 1) / (
                PAGE_SIZE as int)
                &&& ms.areas@[0].map_perm.bits == (MAP_PERM_R | MAP_PERM_X)
                &&& ms.areas@[1].map_type is Identical
                &&& ms.areas@[1].vpn_range.start_val() == srodata / PAGE_SIZE
                &&& ms.areas@[1].vpn_range.end_val() == (erodata + PAGE_SIZE - 1) / (
                PAGE_SIZE as int)
                &&& ms.areas@[1].map_perm.bits == MAP_PERM_R
                &&& ms.areas@[2].map_type is Identical
                &&& ms.areas@[2].vpn_range.start_val() == sdata / PAGE_SIZE
                &&& ms.areas@[2].vpn_range.end_val() == (edata + PAGE_SIZE - 1) / (
                PAGE_SIZE as int)
                &&& ms.areas@[2].map_perm.bits == (MAP_PERM_R | MAP_PERM_W)
                &&& ms.areas@[3].map_type is Identical
                &&& ms.areas@[3].vpn_range.start_val() == sbss / PAGE_SIZE
                &&& ms.areas@[3].vpn_range.end_val() == (ebss + PAGE_SIZE - 1) / (
                PAGE_SIZE as int)
                &&& ms.areas@[3].map_perm.bits == (MAP_PERM_R | MAP_PERM_W)
                &&& ms.areas@[4].map_type is Identical
                &&& ms.areas@[4].vpn_range.start_val() == ekernel / PAGE_SIZE
                &&& ms.areas@[4].vpn_range.end_val() == (mem_end + PAGE_SIZE - 1) / (
                PAGE_SIZE as int)
                &&& ms.areas@[4].map_perm.bits == (MAP_PERM_R | MAP_PERM_W)
            },
    {
        let ghost m0 = *old(mem);
        let ghost a0 = old(allocator)@;
        let mut ms = match MemorySet::new_bare(allocator, mem) {
            Err(_) => {
                return Err(PagingError::OutOfFrames);
            },
            Ok(m) => m,
        };
        proof {
            assert(build_inv(ms, mem, &m0, a0, allocator@));
        }
        let ghost ms_a = ms;
        let ghost m_a = *mem;
        let ghost a_a = allocator@;
        match ms.map_trampoline(allocator, mem, strampoline) {
            Err(_) => {
                return Err(PagingError::OutOfFrames);
            },
            Ok(()) => {},
        }
        proof {
            lemma_build_step(ms_a, ms, m0, m_a, *mem, a0, a_a, allocator@);
        }
        let ghost ms_b = ms;
        let ghost m_b = *mem;
        let ghost a_b = allocator@;
        match ms.push_area(allocator, mem, VirtAddr(stext).floor(), VirtAddr(etext).ceil(),
            MapType::Identical, MapPermission::new(MAP_PERM_R | MAP_PERM_X), None) {
            Err(_) => {
                return Err(PagingError::OutOfFrames);
            },
            Ok(()) => {},
        }
        proof {
            lemma_build_step(ms_b, ms, m0, m_b, *mem, a0, a_b, allocator@);
        }
        let ghost ms_c = ms;
        let ghost m_c = *mem;
        let ghost a_c = allocator@;
        match ms.push_area(allocator, mem, VirtAddr(srodata).floor(), VirtAddr(erodata).ceil(),
            MapType::Identical, MapPermission::new(MAP_PERM_R), None) {
            Err(_) => {
                return Err(PagingError::OutOfFrames);
            },
            Ok(()) => {},
        }
        proof {
            lemma_build_step(ms_c, ms, m0, m_c, *mem, a0, a_c, allocator@);
        }
        let ghost ms_d = ms;
        let ghost m_d = *mem;
        let ghost a_d = allocator@;
        match ms.push_area(allocator, mem, VirtAddr(sdata).floor(), VirtAddr(edata).ceil(),
            MapType::Identical, MapPermission::new(MAP_PERM_R | MAP_PERM_W), None) {
            Err(_) => {
                return Err(PagingError::OutOfFrames);
            },
            Ok(()) => {},
        }
        proof {
            lemma_build_step(ms_d, ms, m0, m_d, *mem, a0, a_d, allocator@);
        }
        let ghost ms_e = ms;
        let ghost m_e = *mem;
        let ghost a_e = allocator@;
        match ms.push_area(allocator, mem, VirtAddr(sbss).floor(), VirtAddr(ebss).ceil(),
            MapType::Identical, MapPermission::new(MAP_PERM_R | MAP_PERM_W), None) {
            Err(_) => {
                return Err(PagingError::OutOfFrames);
            },
            Ok(()) => {},
        }
        proof {
            lemma_build_step(ms_e, ms, m0, m_e, *mem, a0, a_e, allocator@);
        }
        let ghost ms_f = ms;
        let ghost m_f = *mem;
        let ghost a_f = allocator@;
        match ms.push_area(allocator, mem, VirtAddr(ekernel).floor(), VirtAddr(mem_end).ceil(),
            MapType::Identical, MapPermission::new(MAP_PERM_R | MAP_PERM_W), None) {
            Err(_) => {
                return Err(PagingError::OutOfFrames);
            },
            Ok(()) => {},
        }
        proof {
            lemma_build_step(ms_f, ms, m0, m_f, *mem, a0, a_f, allocator@);
        }
        Ok(ms)
    }
}

/// An index whose region starts at `s`, with none earlier, is what the
/// scan finds.
pub proof fn lemma_find_at(areas: Seq<MapArea>, s: int, i: int)
    requires
        0 <= i < areas.len(),
        areas[i].vpn_range.start_val() == s,
        forall|j: int| 0 <= j < i ==> (#[trigger] areas[j]).vpn_range.start_val() != s,
    ensures
        find_start_idx(areas, s, 0) == Some(i),
{
    lemma_find_start_idx(areas, s, 0);
    if find_start_idx(areas, s, 0) is None {
        assert(areas[i].vpn_range.start_val() != s);
    }
    let i2 = find_start_idx(areas, s, 0)->Some_0;
    if i2 < i {
        assert(areas[i2].vpn_range.start_val() != s);
    }
    if i2 > i {
        assert(areas[i].vpn_range.start_val() != s);
    }
}

/// A space is untouched by any memory change outside its own pages: it
/// stays intact and every page translates as before.
pub proof fn lemma_ms_untouched(ms: MemorySet, m1: PhysMemory, m2: PhysMemory)
    requires
        ms.wf(&m1),
        m2.base == m1.base,
        m2.pages@.len() == m1.pages@.len(),
        forall|q: u64| ms.owns_page(q) ==> #[trigger] m2.page(q) == m1.page(q),
    ensures
        ms.wf(&m2),
        forall|w: u64|
            spec_translate(&m2, ms.page_table.root_ppn.0, w) == spec_translate(
                &m1,
                ms.page_table.root_ppn.0,
                w,
            ),
{
    let root = ms.page_table.root_ppn.0;
    assert forall|q: u64| ms.page_table.owned().contains(q) implies #[trigger] m2.page(q)
        == m1.page(q) by {
        assert(ms.owns_page(q));
    }
    crate::page_table::lemma_pt_untouched(ms.page_table, m1, m2);
    assert forall|i: int|
        0 <= i < ms.areas@.len() implies (#[trigger] ms.areas@[i]).mapped(&m2, root) by {
        assert(ms.areas@[i].mapped(&m1, root));
        assert forall|w: u64| ms.areas@[i].contains(w) implies #[trigger] spec_translate(
            &m2,
            root,
            w,
        ) == Some(ms.areas@[i].entry_for(w)) by {
            assert(spec_translate(&m2, root, w) == spec_translate(&m1, root, w));
        }
    }
    assert forall|i: int, k: int|
        #![trigger ms.areas@[i].data_frames@[k]]
        0 <= i < ms.areas@.len() && 0 <= k < ms.areas@[i].data_frames@.len() implies (m2.is_data(
        ms.areas@[i].data_frames@[k].ppn.0,
    ) || m2.is_trap(ms.areas@[i].data_frames@[k].ppn.0)) && !ms.page_table.owned().contains(
        ms.areas@[i].data_frames@[k].ppn.0,
    ) by {
        let q = ms.areas@[i].data_frames@[k].ppn.0;
        assert(ms.frames_contain(q));
        assert(ms.owns_page(q));
        assert(m2.page(q) == m1.page(q));
    }
    assert forall|w: u64|
        w <= VPN_MASK && (#[trigger] spec_translate(&m2, root, w)) is Some implies ms.covers(
        w,
    ) by {
        assert(spec_translate(&m2, root, w) == spec_translate(&m1, root, w));
    }
    if ms.trampoline is Some {
        assert(spec_translate(&m2, root, VPN_MASK) == spec_translate(&m1, root, VPN_MASK));
    }
    assert(ms.wf(&m2));
}

/// Rewriting one of a space's own data frames to hold a data page or a
/// trap context leaves the space intact and every page translating as
/// before.
pub proof fn lemma_ms_frame_retype(ms: MemorySet, m1: PhysMemory, m2: PhysMemory, p: u64)
    requires
        ms.wf(&m1),
        ms.frames_contain(p),
        m2.agrees_except(&m1, set![p]),
        m2.page(p) is DataP || m2.page(p) is TrapP,
    ensures
        ms.wf(&m2),
        forall|w: u64|
            spec_translate(&m2, ms.page_table.root_ppn.0, w) == spec_translate(
                &m1,
                ms.page_table.root_ppn.0,
                w,
            ),
{
    let root = ms.page_table.root_ppn.0;
    assert(!ms.page_table.owned().contains(p)) by {
        let (i, k) = choose|i: int, k: int|
            0 <= i < ms.areas@.len() && 0 <= k < ms.areas@[i].data_frames@.len()
                && ms.areas@[i].data_frames@[k].ppn.0 == p;
        assert(ms.areas@[i].data_frames@[k].ppn.0 == p);
    }
    assert forall|q: u64| ms.page_table.owned().contains(q) implies #[trigger] m2.page(q)
        == m1.page(q) by {
        assert(q != p);
    }
    crate::page_table::lemma_pt_untouched(ms.page_table, m1, m2);
    assert forall|i: int|
        0 <= i < ms.areas@.len() implies (#[trigger] ms.areas@[i]).mapped(&m2, root) by {
        assert(ms.areas@[i].mapped(&m1, root));
        assert forall|w: u64| ms.areas@[i].contains(w) implies #[trigger] spec_translate(
            &m2,
            root,
            w,
        ) == Some(ms.areas@[i].entry_for(w)) by {
            assert(spec_translate(&m2, root, w) == spec_translate(&m1, root, w));
        }
    }
    assert forall|i: int, k: int|
        #![trigger ms.areas@[i].data_frames@[k]]
        0 <= i < ms.areas@.len() && 0 <= k < ms.areas@[i].data_frames@.len() implies (m2.is_data(
        ms.areas@[i].data_frames@[k].ppn.0,
    ) || m2.is_trap(ms.areas@[i].data_frames@[k].ppn.0)) && !ms.page_table.owned().contains(
        ms.areas@[i].data_frames@[k].ppn.0,
    ) by {
        let q = ms.areas@[i].data_frames@[k].ppn.0;
        if q != p {
            assert(m2.page(q) == m1.page(q));
        }
    }
    assert forall|w: u64|
        w <= VPN_MASK && (#[trigger] spec_translate(&m2, root, w)) is Some implies ms.covers(
        w,
    ) by {
        assert(spec_translate(&m2, root, w) == spec_translate(&m1, root, w));
    }
    if ms.trampoline is Some {
        assert(spec_translate(&m2, root, VPN_MASK) == spec_translate(&m1, root, VPN_MASK));
    }
    assert(ms.wf(&m2));
}

/// A space stays intact under writes that only change the bytes of data
/// pages: every page translates as before.
pub proof fn lemma_ms_data_write(ms: MemorySet, m1: PhysMemory, m2: PhysMemory)
    requires
        ms.wf(&m1),
        m2.base == m1.base,
        m2.pages@.len() == m1.pages@.len(),
        forall|q: u64|
            #[trigger] m2.page(q) == m1.page(q) || (m1.is_data(q) && m2.is_data(q)),
    ensures
        ms.wf(&m2),
        forall|w: u64|
            spec_translate(&m2, ms.page_table.root_ppn.0, w) == spec_translate(
                &m1,
                ms.page_table.root_ppn.0,
                w,
            ),
{
    let root = ms.page_table.root_ppn.0;
    assert forall|q: u64| ms.page_table.owned().contains(q) implies #[trigger] m2.page(q)
        == m1.page(q) by {
        assert(m1.is_table(q));
    }
    crate::page_table::lemma_pt_untouched(ms.page_table, m1, m2);
    assert forall|i: int|
        0 <= i < ms.areas@.len() implies (#[trigger] ms.areas@[i]).mapped(&m2, root) by {
        assert(ms.areas@[i].mapped(&m1, root));
        assert forall|w: u64| ms.areas@[i].contains(w) implies #[trigger] spec_translate(
            &m2,
            root,
            w,
        ) == Some(ms.areas@[i].entry_for(w)) by {
            assert(spec_translate(&m2, root, w) == spec_translate(&m1, root, w));
        }
    }
    assert forall|i: int, k: int|
        #![trigger ms.areas@[i].data_frames@[k]]
        0 <= i < ms.areas@.len() && 0 <= k < ms.areas@[i].data_frames@.len() implies (m2.is_data(
        ms.areas@[i].data_frames@[k].ppn.0,
    ) || m2.is_trap(ms.areas@[i].data_frames@[k].ppn.0)) && !ms.page_table.owned().contains(
        ms.areas@[i].data_frames@[k].ppn.0,
    ) by {
        let q = ms.areas@[i].data_frames@[k].ppn.0;
        assert(m2.page(q) == m1.page(q) || (m1.is_data(q) && m2.is_data(q)));
    }
    assert forall|w: u64|
        w <= VPN_MASK && (#[trigger] spec_translate(&m2, root, w)) is Some implies ms.covers(
        w,
    ) by {
        assert(spec_translate(&m2, root, w) == spec_translate(&m1, root, w));
    }
    if ms.trampoline is Some {
        assert(spec_translate(&m2, root, VPN_MASK) == spec_translate(&m1, root, VPN_MASK));
    }
    assert(ms.wf(&m2));
}

/// How many 512-page table blocks the pages `[start, start + k)` touch.
pub open spec fn blocks_touched(start: u64, k: int) -> int {
    if k <= 0 {
        0
    } else {
        (start + k - 1) / 512 - start / 512 + 1
    }
}

/// Frames that always suffice to map `k` pages from `start` on: two table
/// nodes per touched block, plus one data frame per page for a framed
/// region.
pub open spec fn push_budget(mt: MapType, start: u64, k: int) -> int {
    2 * blocks_touched(start, k) + if mt is Framed {
        k
    } else {
        0
    }
}

/// Dividing by the block size steps by one exactly at block boundaries.
proof fn lemma_block_div_step(x: int)
    requires
        x >= 1,
    ensures
        x % 512 != 0 ==> x / 512 == (x - 1) / 512,
        x % 512 == 0 ==> x / 512 == (x - 1) / 512 + 1,
{
    vstd::arithmetic::div_mod::lemma_fundamental_div_mod(x, 512);
    vstd::arithmetic::div_mod::lemma_mod_bound(x, 512);
    if x % 512 != 0 {
        vstd::arithmetic::div_mod::lemma_fundamental_div_mod_converse(
            x - 1,
            512,
            x / 512,
            x % 512 - 1,
        );
    } else {
        vstd::arithmetic::div_mod::lemma_fundamental_div_mod_converse(x - 1, 512, x / 512 - 1, 511);
    }
}

/// One more page touches one more block exactly when it opens a block.
pub proof fn lemma_blocks_step(start: u64, k: int)
    requires
        k >= 0,
        start + k + 1 <= u64::MAX,
    ensures
        k == 0 ==> blocks_touched(start, 1) == 1,
        k >= 1 && (start + k) % 512 != 0 ==> blocks_touched(start, k + 1) == blocks_touched(
            start,
            k,
        ),
        k >= 1 && (start + k) % 512 == 0 ==> blocks_touched(start, k + 1) == blocks_touched(
            start,
            k,
        ) + 1,
{
    if k >= 1 {
        lemma_block_div_step(start + k);
    }
}

/// A range of pages touches at least one block once non-empty, never more
/// blocks than pages, and a longer range never touches fewer.
pub proof fn lemma_blocks_bounds(start: u64, k: int)
    requires
        k >= 0,
        start + k + 1 <= u64::MAX,
    ensures
        0 <= blocks_touched(start, k) <= k,
        k >= 1 ==> blocks_touched(start, k) >= 1,
        forall|k2: int|
            0 <= k2 <= k ==> #[trigger] blocks_touched(start, k2) <= blocks_touched(start, k),
    decreases k,
{
    if k >= 1 {
        lemma_blocks_bounds(start, k - 1);
        lemma_blocks_step(start, k - 1);
        assert forall|k2: int|
            0 <= k2 <= k implies #[trigger] blocks_touched(start, k2) <= blocks_touched(
            start,
            k,
        ) by {
            if k2 < k {
                assert(blocks_touched(start, k2) <= blocks_touched(start, k - 1));
            }
        }
    }
}

} // verus!









