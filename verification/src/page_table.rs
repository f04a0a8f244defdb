use vstd::prelude::*;

use crate::address::{vpn_index0, vpn_index1, vpn_index2, PhysPageNum, VirtPageNum, PPN_MASK, VPN_MASK};
use crate::frame_allocator::FrameTracker;
use crate::phys_mem::PhysMemory;

verus! {

/// Valid bit of a page-table entry.
pub const PTE_V: u8 = 0x01;
/// Read-permission bit of a page-table entry.
pub const PTE_R: u8 = 0x02;
/// Write-permission bit of a page-table entry.
pub const PTE_W: u8 = 0x04;
/// Execute-permission bit of a page-table entry.
pub const PTE_X: u8 = 0x08;
/// User-accessibility bit of a page-table entry.
pub const PTE_U: u8 = 0x10;
/// Global bit of a page-table entry.
pub const PTE_G: u8 = 0x20;
/// Accessed bit of a page-table entry.
pub const PTE_A: u8 = 0x40;
/// Dirty bit of a page-table entry.
pub const PTE_D: u8 = 0x80;

/// The eight permission bits of a page-table entry.
#[derive(Clone, Copy, Debug, PartialEq, Eq, Structural)]
pub struct PTEFlags {
    /// The raw flag bits.
    pub bits: u8,
}

impl PTEFlags {
    /// Flags with the given raw bits.
    pub fn new(bits: u8) -> (r: Self)
        ensures
            r.bits == bits,
    {
        Self { bits }
    }

    /// Flags with no bit set.
    pub fn empty() -> (r: Self)
        ensures
            r.bits == 0,
    {
        Self { bits: 0 }
    }

    /// Whether every bit of `other` is set in `self`.
    pub fn contains(&self, other: PTEFlags) -> (r: bool)
        ensures
            r == (self.bits & other.bits == other.bits),
    {
        self.bits & other.bits == other.bits
    }
}

/// The physical page number packed into raw entry bits.
pub open spec fn pte_ppn_bits(bits: u64) -> u64 {
    (bits >> 10u64) & PPN_MASK
}

/// The flag byte packed into raw entry bits.
pub open spec fn pte_flag_bits(bits: u64) -> u8 {
    (bits & 0xffu64) as u8
}

/// Whether raw entry bits carry the valid bit.
pub open spec fn pte_valid_bits(bits: u64) -> bool {
    bits & 1u64 == 1u64
}

/// One slot of a page-table node: a target physical page number plus the
/// eight flag bits.
#[derive(Clone, Copy, Debug, PartialEq, Eq, Structural)]
pub struct PageTableEntry {
    /// The raw bits as the hardware reads them.
    pub bits: u64,
}

impl PageTableEntry {
    /// Packs a target page number and flags into an entry.
    pub fn new(ppn: PhysPageNum, flags: PTEFlags) -> (r: Self)
        requires
            ppn.0 <= PPN_MASK,
        ensures
            r.bits == ppn.0 << 10u64 | flags.bits as u64,
            pte_ppn_bits(r.bits) == ppn.0,
            pte_flag_bits(r.bits) == flags.bits,
            pte_valid_bits(r.bits) == (flags.bits & PTE_V == PTE_V),
    {
        let bits = ppn.0 << 10u64 | flags.bits as u64;
        proof {
            lemma_pte_pack(ppn.0, flags.bits);
        }
        PageTableEntry { bits }
    }

    /// The all-clear entry, in particular not valid.
    pub fn empty() -> (r: Self)
        ensures
            r.bits == 0,
            !pte_valid_bits(r.bits),
            pte_ppn_bits(r.bits) == 0,
            pte_flag_bits(r.bits) == 0,
    {
        proof {
            lemma_pte_zero();
        }
        PageTableEntry { bits: 0 }
    }

    /// The target physical page number of this entry.
    pub fn ppn(&self) -> (r: PhysPageNum)
        ensures
            r.0 == pte_ppn_bits(self.bits),
            r.0 <= PPN_MASK,
    {
        proof {
            lemma_pte_ppn_bound(self.bits);
        }
        PhysPageNum((self.bits >> 10u64) & PPN_MASK)
    }

    /// The flag byte of this entry.
    pub fn flags(&self) -> (r: PTEFlags)
        ensures
            r.bits == pte_flag_bits(self.bits),
    {
        PTEFlags { bits: (self.bits & 0xffu64) as u8 }
    }

    /// Whether this entry is valid.
    pub fn is_valid(&self) -> (r: bool)
        ensures
            r == pte_valid_bits(self.bits),
    {
        proof {
            lemma_pte_flag_tests(self.bits);
        }
        self.bits & 1u64 == 1u64
    }

    /// Whether this entry allows reading.
    pub fn readable(&self) -> (r: bool)
        ensures
            r == (pte_flag_bits(self.bits) & PTE_R == PTE_R),
    {
        proof {
            lemma_pte_flag_tests(self.bits);
        }
        self.bits & 2u64 == 2u64
    }

    /// Whether this entry allows writing.
    pub fn writable(&self) -> (r: bool)
        ensures
            r == (pte_flag_bits(self.bits) & PTE_W == PTE_W),
    {
        proof {
            lemma_pte_flag_tests(self.bits);
        }
        self.bits & 4u64 == 4u64
    }

    /// Whether this entry allows execution.
    pub fn executable(&self) -> (r: bool)
        ensures
            r == (pte_flag_bits(self.bits) & PTE_X == PTE_X),
    {
        proof {
            lemma_pte_flag_tests(self.bits);
        }
        self.bits & 8u64 == 8u64
    }
}


/// The SV39 mode tag of an address-space token.
pub const SATP_MODE_SV39: u64 = 0x8000_0000_0000_0000;

/// Why a page-table mutation was refused.  Every variant is a fatal kernel
/// condition: the surrounding system shuts the machine down on it.
#[derive(Clone, Copy, Debug, PartialEq, Eq, Structural)]
pub enum PagingError {
    /// `map` hit a leaf entry that is already valid.
    AlreadyMapped,
    /// `unmap` hit a page with no valid leaf entry.
    NotMapped,
    /// The frame allocator ran out of pages for an intermediate node.
    OutOfFrames,
}

/// Where one owned page-table node hangs in the radix tree.
pub enum NodePos {
    /// A middle-level node: entry `i0` of the root points at it.
    Mid {
        /// Index of the root entry pointing here.
        i0: u64,
    },
    /// A leaf-level node: entry `i0` of the root, then entry `i1` of that
    /// middle node, point at it.
    Leaf {
        /// Index of the root entry on the path here.
        i0: u64,
        /// Index of the middle-node entry pointing here.
        i1: u64,
    },
}

/// The leaf slot the three-level walk reaches for `vpn`: the leaf-level
/// node and the index within it, or nothing as soon as a level is missing.
pub open spec fn spec_leaf_slot(mem: &PhysMemory, root: u64, vpn: u64) -> Option<(u64, u64)> {
    if !mem.is_table(root) {
        None
    } else {
        let e0 = mem.entry(root, vpn_index0(vpn) as int);
        if !pte_valid_bits(e0.bits) {
            None
        } else {
            let p1 = pte_ppn_bits(e0.bits);
            if !mem.is_table(p1) {
                None
            } else {
                let e1 = mem.entry(p1, vpn_index1(vpn) as int);
                if !pte_valid_bits(e1.bits) {
                    None
                } else {
                    let p2 = pte_ppn_bits(e1.bits);
                    if !mem.is_table(p2) {
                        None
                    } else {
                        Some((p2, vpn_index2(vpn)))
                    }
                }
            }
        }
    }
}

/// What translating `vpn` yields: the valid leaf entry the walk reaches,
/// or nothing if a level is missing or the leaf entry is not valid.
pub open spec fn spec_translate(mem: &PhysMemory, root: u64, vpn: u64) -> Option<PageTableEntry> {
    match spec_leaf_slot(mem, root, vpn) {
        None => None,
        Some((t, i)) => {
            let e = mem.entry(t, i as int);
            if pte_valid_bits(e.bits) {
                Some(e)
            } else {
                None
            }
        },
    }
}

/// How many intermediate nodes mapping `vpn` would have to allocate.
pub open spec fn spec_nodes_needed(mem: &PhysMemory, root: u64, vpn: u64) -> int {
    let e0 = mem.entry(root, vpn_index0(vpn) as int);
    if !pte_valid_bits(e0.bits) {
        2
    } else {
        let e1 = mem.entry(pte_ppn_bits(e0.bits), vpn_index1(vpn) as int);
        if !pte_valid_bits(e1.bits) {
            1
        } else {
            0
        }
    }
}

/// One address space's translation structure: the root node and the owned
/// frames holding every node of the radix tree, with the ghost position of
/// each owned node within the tree.
pub struct PageTable {
    /// Page number of the root node.
    pub root_ppn: PhysPageNum,
    /// The frames backing every node this table ever allocated; the root
    /// frame sits first.
    pub frames: Vec<FrameTracker>,
    /// Where each non-root node hangs in the tree.
    pub pos: Ghost<Map<u64, NodePos>>,
}

impl PageTable {
    /// The pages this table's nodes occupy.
    pub open spec fn owned(&self) -> Set<u64> {
        self.pos@.dom().insert(self.root_ppn.0)
    }

    /// The radix tree is intact in `mem`: the root and every tracked node
    /// is a table page, every valid root entry points at a tracked
    /// middle-level node, every valid middle-node entry points at a tracked
    /// leaf-level node, and the tracked position of a node pins the unique
    /// path that reaches it.
    pub open spec fn wf(&self, mem: &PhysMemory) -> bool {
        let root = self.root_ppn.0;
        let pos = self.pos@;
        &&& mem.is_table(root)
        &&& !pos.dom().contains(root)
        &&& forall|p: u64| #[trigger] pos.dom().contains(p) ==> mem.is_table(p) && p != root
        &&& forall|i: int|
            0 <= i < 512 && pte_valid_bits(#[trigger] mem.entry(root, i).bits) ==> {
                let c = pte_ppn_bits(mem.entry(root, i).bits);
                pos.dom().contains(c) && pos[c] == (NodePos::Mid { i0: i as u64 })
            }
        &&& forall|p: u64, j: int|
            pos.dom().contains(p) && (#[trigger] pos[p]) is Mid && 0 <= j < 512 && pte_valid_bits(
                (#[trigger] mem.entry(p, j)).bits,
            ) ==> {
                let c = pte_ppn_bits(mem.entry(p, j).bits);
                pos.dom().contains(c) && pos[c] == (NodePos::Leaf { i0: pos[p]->Mid_i0, i1: j as u64 })
            }
    }

    /// The address-space token: the SV39 mode tag packed with the root page
    /// number.
    pub open spec fn spec_token(&self) -> u64 {
        SATP_MODE_SV39 | self.root_ppn.0
    }

    /// Reads the valid leaf entry the walk reaches for `vpn`, if any.  This
    /// checks the kind of every page it follows, so it mirrors what the
    /// hardware walker would do for any root, owned or borrowed.
    pub fn translate(&self, mem: &PhysMemory, vpn: VirtPageNum) -> (r: Option<PageTableEntry>)
        requires
            mem.wf(),
        ensures
            r == spec_translate(mem, self.root_ppn.0, vpn.0),
    {
        let idx = vpn.indexes();
        let root = self.root_ppn.0;
        if !mem.is_table_page(root) {
            return None;
        }
        let e0 = mem.read_entry(root, idx[0]);
        if !e0.is_valid() {
            return None;
        }
        let p1 = e0.ppn();
        if !mem.is_table_page(p1.0) {
            return None;
        }
        let e1 = mem.read_entry(p1.0, idx[1]);
        if !e1.is_valid() {
            return None;
        }
        let p2 = e1.ppn();
        if !mem.is_table_page(p2.0) {
            return None;
        }
        let e2 = mem.read_entry(p2.0, idx[2]);
        if !e2.is_valid() {
            return None;
        }
        Some(e2)
    }

    /// Builds an empty page table, allocating its root node.
    pub fn new(
        allocator: &mut crate::frame_allocator::StackFrameAllocator,
        mem: &mut PhysMemory,
    ) -> (r: Result<PageTable, PagingError>)
        requires
            old(allocator)@.wf(),
            crate::frame_allocator::within(old(allocator)@, old(mem)),
            old(mem).wf(),
        ensures
            final(allocator)@.wf(),
            crate::frame_allocator::within(final(allocator)@, final(mem)),
            final(mem).wf(),
            final(mem).base == old(mem).base,
            final(mem).pages@.len() == old(mem).pages@.len(),
            r is Err <==> old(allocator)@.free_count() == 0,
            r is Err ==> *final(mem) == *old(mem) && final(allocator)@ == old(allocator)@,
            r matches Ok(pt) ==> {
                &&& pt.wf(final(mem))
                &&& pt.pos@ === Map::empty()
                &&& pt.owned() === set![pt.root_ppn.0]
                &&& !old(allocator)@.live().contains(pt.root_ppn.0)
                &&& final(allocator)@.live() == old(allocator)@.live().insert(pt.root_ppn.0)
                &&& final(allocator)@.free_count() == old(allocator)@.free_count() - 1
                &&& final(mem).agrees_except(&*old(mem), set![pt.root_ppn.0])
                &&& forall|w: u64| spec_translate(final(mem), pt.root_ppn.0, w) is None
            },
    {
        proof {
            crate::frame_allocator::lemma_alloc_step(old(allocator)@);
        }
        match crate::frame_allocator::frame_alloc(allocator, mem) {
            None => Err(PagingError::OutOfFrames),
            Some(frame) => {
                let root = frame.ppn;
                mem.reset_table_page(root.0);
                let mut frames: Vec<FrameTracker> = Vec::new();
                frames.push(frame);
                let pt = PageTable { root_ppn: root, frames, pos: Ghost(Map::empty()) };
                proof {
                    assert(pt.owned() =~= set![root.0]);
                    assert(!pte_valid_bits(0)) by {
                        assert(0u64 & 1u64 == 0u64) by (bit_vector);
                    }
                    assert forall|i: int| 0 <= i < 512 implies !pte_valid_bits(
                        mem.entry(root.0, i).bits,
                    ) by {
                        assert(mem.entry(root.0, i).bits == 0);
                    }
                    assert(pt.wf(mem));
                    assert forall|q: u64| !(set![root.0]).contains(q) implies mem.page(q) == old(
                        mem,
                    ).page(q) by {}
                    assert forall|w: u64| spec_translate(mem, root.0, w) is None by {
                        crate::address::lemma_vpn_indices_bounded(w);
                        assert(mem.entry(root.0, vpn_index0(w) as int).bits == 0);
                        assert(0u64 & 1u64 == 0u64) by (bit_vector);
                    }
                }
                Ok(pt)
            },
        }
    }

    /// A page table borrowing the root named by an address-space token,
    /// owning no frames; used to read another space the way the hardware
    /// walker would.
    pub fn from_token(satp: u64) -> (r: PageTable)
        ensures
            r.root_ppn.0 == satp & PPN_MASK,
            r.frames@.len() == 0,
            r.pos@ === Map::empty(),
    {
        PageTable {
            root_ppn: PhysPageNum(satp & PPN_MASK),
            frames: Vec::new(),
            pos: Ghost(Map::empty()),
        }
    }

    /// The token naming this address space to the translation hardware.
    pub fn token(&self) -> (r: u64)
        ensures
            r == self.spec_token(),
    {
        SATP_MODE_SV39 | self.root_ppn.0
    }
}



/// A table page of a well-formed pool holds exactly 512 entries.
proof fn lemma_entries_len(m: PhysMemory, p: u64)
    requires
        m.wf(),
        m.is_table(p),
    ensures
        m.entries(p).len() == 512,
{
    assert(crate::phys_mem::frame_wf(m.pages@[p - m.base]));
}

/// Under a well-formed table, a successful walk pins the leaf node's
/// tracked position to the walked indices.
proof fn lemma_slot_pos(pt: PageTable, mem: PhysMemory, vpn: u64)
    requires
        pt.wf(&mem),
        spec_leaf_slot(&mem, pt.root_ppn.0, vpn) is Some,
    ensures
        ({
            let (t, i) = spec_leaf_slot(&mem, pt.root_ppn.0, vpn)->Some_0;
            &&& pt.pos@.dom().contains(t)
            &&& pt.pos@[t] == (NodePos::Leaf { i0: vpn_index0(vpn), i1: vpn_index1(vpn) })
            &&& i == vpn_index2(vpn)
            &&& mem.is_table(t)
            &&& t != pt.root_ppn.0
        }),
{
    let root = pt.root_ppn.0;
    crate::address::lemma_vpn_indices_bounded(vpn);
    let e0 = mem.entry(root, vpn_index0(vpn) as int);
    let p1 = pte_ppn_bits(e0.bits);
    assert(pt.pos@.dom().contains(p1) && pt.pos@[p1] == (NodePos::Mid { i0: vpn_index0(vpn) }));
    let e1 = mem.entry(p1, vpn_index1(vpn) as int);
    let p2 = pte_ppn_bits(e1.bits);
    assert(pt.pos@.dom().contains(p2) && pt.pos@[p2] == (NodePos::Leaf {
        i0: vpn_index0(vpn),
        i1: vpn_index1(vpn),
    }));
}

/// Writing the leaf entry of `vpn` leaves the table well formed, gives
/// `vpn` exactly the written entry, and translates every other page as
/// before.
proof fn lemma_leaf_update(
    pt: PageTable,
    m1: PhysMemory,
    m2: PhysMemory,
    vpn: u64,
    t: u64,
    pte: PageTableEntry,
)
    requires
        m1.wf(),
        m2.wf(),
        pt.wf(&m1),
        vpn <= VPN_MASK,
        spec_leaf_slot(&m1, pt.root_ppn.0, vpn) == Some((t, vpn_index2(vpn))),
        m2.agrees_except(&m1, set![t]),
        m2.page(t) == (crate::phys_mem::PageModel::TableP {
            entries: m1.entries(t).update(vpn_index2(vpn) as int, pte),
        }),
    ensures
        pt.wf(&m2),
        spec_translate(&m2, pt.root_ppn.0, vpn) == (if pte_valid_bits(pte.bits) {
            Some(pte)
        } else {
            None::<PageTableEntry>
        }),
        forall|w: u64|
            w <= VPN_MASK && w != vpn ==> spec_translate(&m2, pt.root_ppn.0, w) == spec_translate(
                &m1,
                pt.root_ppn.0,
                w,
            ),
{
    let root = pt.root_ppn.0;
    let pos = pt.pos@;
    lemma_slot_pos(pt, m1, vpn);
    lemma_entries_len(m1, t);
    crate::address::lemma_vpn_indices_bounded(vpn);
    assert(m2.page(root) == m1.page(root));
    assert forall|i: int|
        0 <= i < 512 && pte_valid_bits(#[trigger] m2.entry(root, i).bits) implies {
        let c = pte_ppn_bits(m2.entry(root, i).bits);
        pos.dom().contains(c) && pos[c] == (NodePos::Mid { i0: i as u64 })
    } by {
        assert(m2.entry(root, i) == m1.entry(root, i));
        assert(pte_valid_bits(m1.entry(root, i).bits));
    }
    assert forall|p: u64, j: int|
        pos.dom().contains(p) && (#[trigger] pos[p]) is Mid && 0 <= j < 512 && pte_valid_bits(
            (#[trigger] m2.entry(p, j)).bits,
        ) implies {
        let c = pte_ppn_bits(m2.entry(p, j).bits);
        pos.dom().contains(c) && pos[c] == (NodePos::Leaf { i0: pos[p]->Mid_i0, i1: j as u64 })
    } by {
        assert(p != t);
        assert(m2.page(p) == m1.page(p));
        assert(m2.entry(p, j) == m1.entry(p, j));
        assert(pte_valid_bits(m1.entry(p, j).bits));
    }
    assert(pt.wf(&m2));
    let e0 = m1.entry(root, vpn_index0(vpn) as int);
    let p1 = pte_ppn_bits(e0.bits);
    assert(p1 != t);
    assert(m2.page(p1) == m1.page(p1));
    assert(m2.entry(root, vpn_index0(vpn) as int) == m1.entry(root, vpn_index0(vpn) as int));
    assert(m2.entry(p1, vpn_index1(vpn) as int) == m1.entry(p1, vpn_index1(vpn) as int));
    assert(m2.is_table(t));
    assert(spec_leaf_slot(&m2, root, vpn) == Some((t, vpn_index2(vpn))));
    assert(m2.entries(t) == m1.entries(t).update(vpn_index2(vpn) as int, pte));
    assert(m2.entry(t, vpn_index2(vpn) as int) == pte);
    assert forall|w: u64| w <= VPN_MASK && w != vpn implies spec_translate(&m2, root, w)
        == spec_translate(&m1, root, w) by {
        crate::address::lemma_vpn_indices_bounded(w);
        assert(m2.entry(root, vpn_index0(w) as int) == m1.entry(root, vpn_index0(w) as int));
        let ew0 = m1.entry(root, vpn_index0(w) as int);
        if pte_valid_bits(ew0.bits) {
            let c1 = pte_ppn_bits(ew0.bits);
            assert(pos.dom().contains(c1) && pos[c1] == (NodePos::Mid { i0: vpn_index0(w) }));
            assert(c1 != t);
            assert(m2.page(c1) == m1.page(c1));
            assert(m2.entry(c1, vpn_index1(w) as int) == m1.entry(c1, vpn_index1(w) as int));
            let ew1 = m1.entry(c1, vpn_index1(w) as int);
            if pte_valid_bits(ew1.bits) {
                let c2 = pte_ppn_bits(ew1.bits);
                assert(pos.dom().contains(c2) && pos[c2] == (NodePos::Leaf {
                    i0: vpn_index0(w),
                    i1: vpn_index1(w),
                }));
                if c2 == t {
                    assert(vpn_index0(w) == vpn_index0(vpn) && vpn_index1(w) == vpn_index1(vpn));
                    if vpn_index2(w) == vpn_index2(vpn) {
                        crate::address::lemma_vpn_indexes_injective(w, vpn);
                    }
                    assert(m2.entry(t, vpn_index2(w) as int) == m1.entry(t, vpn_index2(w) as int));
                } else {
                    assert(m2.page(c2) == m1.page(c2));
                    assert(m2.entry(c2, vpn_index2(w) as int) == m1.entry(c2, vpn_index2(w) as int));
                }
            }
        }
    }
}

/// Attaching a fresh zeroed node under the root at index `i0v` keeps the
/// table well formed and translates every page as before.
proof fn lemma_attach_mid(
    pt1: PageTable,
    pt2: PageTable,
    m1: PhysMemory,
    m3: PhysMemory,
    c: u64,
    i0v: u64,
)
    requires
        m1.wf(),
        m3.wf(),
        pt1.wf(&m1),
        !pt1.owned().contains(c),
        i0v < 512,
        !pte_valid_bits(m1.entry(pt1.root_ppn.0, i0v as int).bits),
        pt2.root_ppn == pt1.root_ppn,
        pt2.pos@ == pt1.pos@.insert(c, NodePos::Mid { i0: i0v }),
        m3.agrees_except(&m1, set![c, pt1.root_ppn.0]),
        m3.page(c) == (crate::phys_mem::PageModel::TableP {
            entries: Seq::new(512, |i: int| PageTableEntry { bits: 0 }),
        }),
        m3.page(pt1.root_ppn.0) == (crate::phys_mem::PageModel::TableP {
            entries: m1.entries(pt1.root_ppn.0).update(
                i0v as int,
                PageTableEntry { bits: c << 10u64 | 1u64 },
            ),
        }),
        c <= PPN_MASK,
    ensures
        pt2.wf(&m3),
        forall|w: u64|
            spec_translate(&m3, pt1.root_ppn.0, w) == spec_translate(&m1, pt1.root_ppn.0, w),
        pte_valid_bits(m3.entry(pt1.root_ppn.0, i0v as int).bits),
        pte_ppn_bits(m3.entry(pt1.root_ppn.0, i0v as int).bits) == c,
        m3.is_table(c),
        forall|j: int| 0 <= j < 512 ==> !pte_valid_bits((#[trigger] m3.entry(c, j)).bits),
{
    let root = pt1.root_ppn.0;
    let pos1 = pt1.pos@;
    let pos2 = pt2.pos@;
    lemma_pte_pack(c, 0x01u8);
    lemma_entries_len(m1, root);
    assert(0x01u8 & 0x01u8 == 0x01u8) by (bit_vector);
    assert(c != root);
    assert(pte_ppn_bits((PageTableEntry { bits: c << 10u64 | 1u64 }).bits) == c && pte_valid_bits(
        (PageTableEntry { bits: c << 10u64 | 1u64 }).bits,
    )) by {
        assert(0x01u8 as u64 == 1u64) by (bit_vector);
    }
    assert(m3.entry(root, i0v as int) == (PageTableEntry { bits: c << 10u64 | 1u64 }));
    assert(!pte_valid_bits(0)) by {
        assert(0u64 & 1u64 == 0u64) by (bit_vector);
    }
    assert forall|j: int| 0 <= j < 512 implies !pte_valid_bits(
        (#[trigger] m3.entry(c, j)).bits,
    ) by {
        assert(m3.entry(c, j).bits == 0);
    }
    // well-formedness of the grown table
    assert forall|p: u64| #[trigger] pos2.dom().contains(p) implies m3.is_table(p) && p != root by {
        if p != c {
            assert(m3.page(p) == m1.page(p));
        }
    }
    assert forall|i: int|
        0 <= i < 512 && pte_valid_bits(#[trigger] m3.entry(root, i).bits) implies {
        let ch = pte_ppn_bits(m3.entry(root, i).bits);
        pos2.dom().contains(ch) && pos2[ch] == (NodePos::Mid { i0: i as u64 })
    } by {
        if i != i0v {
            assert(m3.entry(root, i) == m1.entry(root, i));
            assert(pte_valid_bits(m1.entry(root, i).bits));
            let ch = pte_ppn_bits(m1.entry(root, i).bits);
            assert(pos1.dom().contains(ch));
            assert(ch != c);
        } else {
            assert(pte_ppn_bits(m3.entry(root, i).bits) == c);
        }
    }
    assert forall|p: u64, j: int|
        pos2.dom().contains(p) && (#[trigger] pos2[p]) is Mid && 0 <= j < 512 && pte_valid_bits(
            (#[trigger] m3.entry(p, j)).bits,
        ) implies {
        let ch = pte_ppn_bits(m3.entry(p, j).bits);
        pos2.dom().contains(ch) && pos2[ch] == (NodePos::Leaf { i0: pos2[p]->Mid_i0, i1: j as u64 })
    } by {
        if p == c {
            assert(m3.entry(c, j).bits == 0);
        } else {
            assert(pos1.dom().contains(p));
            assert(m3.page(p) == m1.page(p));
            assert(m3.entry(p, j) == m1.entry(p, j));
            assert(pte_valid_bits(m1.entry(p, j).bits));
            let ch = pte_ppn_bits(m1.entry(p, j).bits);
            assert(pos1.dom().contains(ch));
            assert(ch != c);
        }
    }
    assert(pt2.wf(&m3));
    // translations are untouched: the new subtree is entirely invalid
    assert forall|w: u64| spec_translate(&m3, root, w) == spec_translate(&m1, root, w) by {
        crate::address::lemma_vpn_indices_bounded(w);
        if vpn_index0(w) == i0v {
            assert(m3.entry(c, vpn_index1(w) as int).bits == 0);
            assert(spec_translate(&m3, root, w) is None);
            assert(!pte_valid_bits(m1.entry(root, vpn_index0(w) as int).bits));
            assert(spec_translate(&m1, root, w) is None);
        } else {
            assert(m3.entry(root, vpn_index0(w) as int) == m1.entry(root, vpn_index0(w) as int));
            let ew0 = m1.entry(root, vpn_index0(w) as int);
            if pte_valid_bits(ew0.bits) {
                let c1 = pte_ppn_bits(ew0.bits);
                assert(pos1.dom().contains(c1));
                assert(c1 != c && c1 != root);
                assert(m3.page(c1) == m1.page(c1));
                assert(m3.entry(c1, vpn_index1(w) as int) == m1.entry(c1, vpn_index1(w) as int));
                let ew1 = m1.entry(c1, vpn_index1(w) as int);
                if pte_valid_bits(ew1.bits) {
                    let c2 = pte_ppn_bits(ew1.bits);
                    assert(pos1.dom().contains(c2));
                    assert(c2 != c && c2 != root);
                    assert(m3.page(c2) == m1.page(c2));
                    assert(m3.entry(c2, vpn_index2(w) as int) == m1.entry(c2, vpn_index2(w) as int));
                }
            }
        }
    }
}

/// Attaching a fresh zeroed node under middle node `pm` at index `i1v`
/// keeps the table well formed and translates every page as before.
proof fn lemma_attach_leaf(
    pt1: PageTable,
    pt2: PageTable,
    m1: PhysMemory,
    m3: PhysMemory,
    c: u64,
    pm: u64,
    i1v: u64,
)
    requires
        m1.wf(),
        m3.wf(),
        pt1.wf(&m1),
        !pt1.owned().contains(c),
        pt1.pos@.dom().contains(pm),
        pt1.pos@[pm] is Mid,
        i1v < 512,
        !pte_valid_bits(m1.entry(pm, i1v as int).bits),
        pt2.root_ppn == pt1.root_ppn,
        pt2.pos@ == pt1.pos@.insert(c, NodePos::Leaf { i0: pt1.pos@[pm]->Mid_i0, i1: i1v }),
        m3.agrees_except(&m1, set![c, pm]),
        m3.page(c) == (crate::phys_mem::PageModel::TableP {
            entries: Seq::new(512, |i: int| PageTableEntry { bits: 0 }),
        }),
        m3.page(pm) == (crate::phys_mem::PageModel::TableP {
            entries: m1.entries(pm).update(i1v as int, PageTableEntry { bits: c << 10u64 | 1u64 }),
        }),
        c <= PPN_MASK,
    ensures
        pt2.wf(&m3),
        forall|w: u64|
            spec_translate(&m3, pt1.root_ppn.0, w) == spec_translate(&m1, pt1.root_ppn.0, w),
        pte_valid_bits(m3.entry(pm, i1v as int).bits),
        pte_ppn_bits(m3.entry(pm, i1v as int).bits) == c,
        m3.is_table(c),
        m3.is_table(pm),
        m3.page(pt1.root_ppn.0) == m1.page(pt1.root_ppn.0),
        forall|j: int| 0 <= j < 512 ==> !pte_valid_bits((#[trigger] m3.entry(c, j)).bits),
{
    let root = pt1.root_ppn.0;
    let pos1 = pt1.pos@;
    let pos2 = pt2.pos@;
    let pm_i0 = pos1[pm]->Mid_i0;
    lemma_pte_pack(c, 0x01u8);
    lemma_entries_len(m1, pm);
    assert(0x01u8 & 0x01u8 == 0x01u8) by (bit_vector);
    assert(c != root && c != pm && pm != root);
    assert(m3.page(root) == m1.page(root));
    assert(pte_ppn_bits((PageTableEntry { bits: c << 10u64 | 1u64 }).bits) == c && pte_valid_bits(
        (PageTableEntry { bits: c << 10u64 | 1u64 }).bits,
    )) by {
        assert(0x01u8 as u64 == 1u64) by (bit_vector);
    }
    assert(m3.entry(pm, i1v as int) == (PageTableEntry { bits: c << 10u64 | 1u64 }));
    assert(!pte_valid_bits(0)) by {
        assert(0u64 & 1u64 == 0u64) by (bit_vector);
    }
    assert forall|j: int| 0 <= j < 512 implies !pte_valid_bits(
        (#[trigger] m3.entry(c, j)).bits,
    ) by {
        assert(m3.entry(c, j).bits == 0);
    }
    assert forall|p: u64| #[trigger] pos2.dom().contains(p) implies m3.is_table(p) && p != root by {
        if p != c && p != pm {
            assert(m3.page(p) == m1.page(p));
        }
    }
    assert forall|i: int|
        0 <= i < 512 && pte_valid_bits(#[trigger] m3.entry(root, i).bits) implies {
        let ch = pte_ppn_bits(m3.entry(root, i).bits);
        pos2.dom().contains(ch) && pos2[ch] == (NodePos::Mid { i0: i as u64 })
    } by {
        assert(m3.entry(root, i) == m1.entry(root, i));
        assert(pte_valid_bits(m1.entry(root, i).bits));
        let ch = pte_ppn_bits(m1.entry(root, i).bits);
        assert(pos1.dom().contains(ch));
        assert(ch != c);
    }
    assert forall|p: u64, j: int|
        pos2.dom().contains(p) && (#[trigger] pos2[p]) is Mid && 0 <= j < 512 && pte_valid_bits(
            (#[trigger] m3.entry(p, j)).bits,
        ) implies {
        let ch = pte_ppn_bits(m3.entry(p, j).bits);
        pos2.dom().contains(ch) && pos2[ch] == (NodePos::Leaf { i0: pos2[p]->Mid_i0, i1: j as u64 })
    } by {
        assert(p != c);
        assert(pos1.dom().contains(p) && pos1[p] is Mid);
        if p == pm {
            if j == i1v {
                assert(pte_ppn_bits(m3.entry(pm, j).bits) == c);
            } else {
                assert(m3.entry(pm, j) == m1.entry(pm, j));
                assert(pte_valid_bits(m1.entry(pm, j).bits));
                let ch = pte_ppn_bits(m1.entry(pm, j).bits);
                assert(pos1.dom().contains(ch));
                assert(ch != c);
            }
        } else {
            assert(m3.page(p) == m1.page(p));
            assert(m3.entry(p, j) == m1.entry(p, j));
            assert(pte_valid_bits(m1.entry(p, j).bits));
            let ch = pte_ppn_bits(m1.entry(p, j).bits);
            assert(pos1.dom().contains(ch));
            assert(ch != c);
        }
    }
    assert(pt2.wf(&m3));
    assert forall|w: u64| spec_translate(&m3, root, w) == spec_translate(&m1, root, w) by {
        crate::address::lemma_vpn_indices_bounded(w);
        assert(m3.entry(root, vpn_index0(w) as int) == m1.entry(root, vpn_index0(w) as int));
        let ew0 = m1.entry(root, vpn_index0(w) as int);
        if pte_valid_bits(ew0.bits) {
            let c1 = pte_ppn_bits(ew0.bits);
            assert(pos1.dom().contains(c1) && pos1[c1] == (NodePos::Mid { i0: vpn_index0(w) }));
            assert(c1 != c);
            if c1 == pm {
                if vpn_index1(w) == i1v {
                    assert(m3.entry(c, vpn_index2(w) as int).bits == 0);
                    assert(spec_translate(&m3, root, w) is None);
                    assert(!pte_valid_bits(m1.entry(pm, i1v as int).bits));
                    assert(spec_translate(&m1, root, w) is None);
                } else {
                    assert(m3.entry(pm, vpn_index1(w) as int) == m1.entry(
                        pm,
                        vpn_index1(w) as int,
                    ));
                    let ew1 = m1.entry(pm, vpn_index1(w) as int);
                    if pte_valid_bits(ew1.bits) {
                        let c2 = pte_ppn_bits(ew1.bits);
                        assert(pos1.dom().contains(c2) && pos1[c2] is Leaf);
                        assert(c2 != c && c2 != pm);
                        assert(m3.page(c2) == m1.page(c2));
                        assert(m3.entry(c2, vpn_index2(w) as int) == m1.entry(
                            c2,
                            vpn_index2(w) as int,
                        ));
                    }
                }
            } else {
                assert(m3.page(c1) == m1.page(c1));
                assert(m3.entry(c1, vpn_index1(w) as int) == m1.entry(c1, vpn_index1(w) as int));
                let ew1 = m1.entry(c1, vpn_index1(w) as int);
                if pte_valid_bits(ew1.bits) {
                    let c2 = pte_ppn_bits(ew1.bits);
                    assert(pos1.dom().contains(c2) && pos1[c2] is Leaf);
                    assert(c2 != c && c2 != pm);
                    assert(m3.page(c2) == m1.page(c2));
                    assert(m3.entry(c2, vpn_index2(w) as int) == m1.entry(
                        c2,
                        vpn_index2(w) as int,
                    ));
                }
            }
        }
    }
}

impl PageTable {
    /// Walks toward `vpn`, allocating and linking a fresh zeroed node for
    /// any missing intermediate level, and returns the leaf slot.  The leaf
    /// entry itself is never created here.
    fn find_pte_create(
        &mut self,
        allocator: &mut crate::frame_allocator::StackFrameAllocator,
        mem: &mut PhysMemory,
        vpn: VirtPageNum,
    ) -> (r: Result<(PhysPageNum, usize), PagingError>)
        requires
            old(self).wf(old(mem)),
            old(mem).wf(),
            old(allocator)@.wf(),
            crate::frame_allocator::within(old(allocator)@, old(mem)),
            vpn.0 <= VPN_MASK,
            forall|q: u64|
                old(self).owned().contains(q) ==> old(allocator)@.live().contains(q),
        ensures
            final(self).root_ppn == old(self).root_ppn,
            final(self).wf(final(mem)),
            final(mem).wf(),
            final(allocator)@.wf(),
            crate::frame_allocator::within(final(allocator)@, final(mem)),
            final(mem).base == old(mem).base,
            final(mem).pages@.len() == old(mem).pages@.len(),
            final(mem).agrees_except(&*old(mem), final(self).owned()),
            forall|q: u64| old(self).owned().contains(q) ==> final(self).owned().contains(q),
            forall|q: u64|
                final(self).owned().contains(q) ==> old(self).owned().contains(q) || !old(
                    allocator,
                )@.live().contains(q),
            forall|q: u64|
                final(self).owned().contains(q) ==> final(allocator)@.live().contains(q),
            forall|q: u64|
                old(allocator)@.live().contains(q) ==> final(allocator)@.live().contains(q),
            forall|q: u64|
                final(allocator)@.live().contains(q) ==> old(allocator)@.live().contains(q)
                    || final(self).owned().contains(q),
            forall|w: u64|
                spec_translate(final(mem), old(self).root_ppn.0, w) == spec_translate(
                    &*old(mem),
                    old(self).root_ppn.0,
                    w,
                ),
            final(allocator)@.free_count() >= old(allocator)@.free_count() - 2,
            final(allocator)@.free_count() >= old(allocator)@.free_count() - spec_nodes_needed(
                &*old(mem),
                old(self).root_ppn.0,
                vpn.0,
            ),
            r is Ok <==> old(allocator)@.free_count() >= spec_nodes_needed(
                &*old(mem),
                old(self).root_ppn.0,
                vpn.0,
            ),
            r is Err ==> r == Err::<(PhysPageNum, usize), PagingError>(PagingError::OutOfFrames),
            spec_nodes_needed(&*old(mem), old(self).root_ppn.0, vpn.0) == 0 ==> *final(mem)
                == *old(mem) && *final(self) == *old(self) && final(allocator)@ == old(
                allocator,
            )@,
            r matches Ok(s) ==> spec_leaf_slot(final(mem), old(self).root_ppn.0, vpn.0) == Some(
                (s.0.0, s.1 as u64),
            ) && s.1 as u64 == vpn_index2(vpn.0) && s.1 < 512,
    {
        let idx = vpn.indexes();
        let root_pn = self.root_ppn;
        let ghost m0 = *old(mem);
        let ghost a0 = old(allocator)@;
        let ghost pt0 = *old(self);
        proof {
            crate::address::lemma_vpn_indices_bounded(vpn.0);
        }
        let e0 = mem.read_entry(root_pn.0, idx[0]);
        let p1: PhysPageNum;
        if e0.is_valid() {
            p1 = e0.ppn();
            proof {
                assert(self.pos@.dom().contains(p1.0) && self.pos@[p1.0] == (NodePos::Mid {
                    i0: vpn_index0(vpn.0),
                }));
                assert forall|q: u64|
                    self.owned().contains(q) implies allocator@.live().contains(q) by {}
                assert forall|q: u64|
                    !self.owned().contains(q) implies mem.page(q) == m0.page(q) by {}
            }
        } else {
            proof {
                crate::frame_allocator::lemma_alloc_step(allocator@);
            }
            match crate::frame_allocator::frame_alloc(allocator, mem) {
                None => {
                    return Err(PagingError::OutOfFrames);
                },
                Some(f) => {
                    let c = f.ppn;
                    proof {
                        assert(!pt0.owned().contains(c.0));
                        assert(c.0 != root_pn.0);
                    }
                    mem.reset_table_page(c.0);
                    let pte = PageTableEntry::new(c, PTEFlags::new(PTE_V));
                    proof {
                        assert(mem.page(root_pn.0) == m0.page(root_pn.0));
                        assert(mem.is_table(root_pn.0));
                    }
                    mem.write_entry(root_pn.0, idx[0], pte);
                    self.pos = Ghost(
                        self.pos@.insert(c.0, NodePos::Mid { i0: vpn_index0(vpn.0) }),
                    );
                    self.frames.push(f);
                    proof {
                        assert(0x01u8 as u64 == 1u64) by (bit_vector);
                        assert forall|q: u64|
                            !(set![c.0, root_pn.0]).contains(q) implies mem.page(q) == m0.page(
                            q,
                        ) by {}
                        assert(mem.page(c.0) == (crate::phys_mem::PageModel::TableP {
                            entries: Seq::new(512, |i: int| PageTableEntry { bits: 0 }),
                        }));
                        assert(mem.page(root_pn.0) == (crate::phys_mem::PageModel::TableP {
                            entries: m0.entries(root_pn.0).update(
                                vpn_index0(vpn.0) as int,
                                PageTableEntry { bits: c.0 << 10u64 | 1u64 },
                            ),
                        }));
                        lemma_attach_mid(pt0, *self, m0, *mem, c.0, vpn_index0(vpn.0));
                        assert(self.pos@[c.0] == (NodePos::Mid { i0: vpn_index0(vpn.0) }));
                        assert(self.owned() =~= pt0.owned().insert(c.0));
                        assert(allocator@.live() == a0.live().insert(c.0));
                        assert forall|q: u64|
                            self.owned().contains(q) implies allocator@.live().contains(q) by {
                            if q != c.0 {
                                assert(pt0.owned().contains(q));
                            }
                        }
                        assert forall|q: u64|
                            !self.owned().contains(q) implies mem.page(q) == m0.page(q) by {
                            assert(!(set![c.0, root_pn.0]).contains(q));
                        }
                    }
                    p1 = c;
                },
            }
        }
        // one level attached or found: the walk prefix for vpn is in place
        proof {
            assert(self.wf(mem));
            assert(mem.is_table(p1.0));
            assert(self.pos@.dom().contains(p1.0));
            assert(self.pos@[p1.0] == (NodePos::Mid { i0: vpn_index0(vpn.0) }));
            assert(pte_valid_bits(mem.entry(root_pn.0, vpn_index0(vpn.0) as int).bits));
            assert(pte_ppn_bits(mem.entry(root_pn.0, vpn_index0(vpn.0) as int).bits) == p1.0);
            assert(forall|q: u64|
                self.owned().contains(q) ==> #[trigger] allocator@.live().contains(q));
            assert(forall|q: u64|
                !self.owned().contains(q) ==> #[trigger] mem.page(q) == m0.page(q));
        }
        let ghost ptm = *self;
        let ghost mm = *mem;
        let ghost am = allocator@;
        let e1 = mem.read_entry(p1.0, idx[1]);
        let p2: PhysPageNum;
        if e1.is_valid() {
            p2 = e1.ppn();
            proof {
                assert(self.pos@.dom().contains(p2.0));
                assert(mem.is_table(p2.0));
            }
        } else {
            proof {
                assert forall|q: u64|
                    ptm.owned().contains(q) implies am.live().contains(q) by {}
            }
            proof {
                crate::frame_allocator::lemma_alloc_step(allocator@);
            }
            match crate::frame_allocator::frame_alloc(allocator, mem) {
                None => {
                    return Err(PagingError::OutOfFrames);
                },
                Some(f) => {
                    let c = f.ppn;
                    proof {
                        assert(!ptm.owned().contains(c.0));
                        assert(c.0 != root_pn.0 && c.0 != p1.0);
                    }
                    mem.reset_table_page(c.0);
                    let pte = PageTableEntry::new(c, PTEFlags::new(PTE_V));
                    proof {
                        assert(mem.page(p1.0) == mm.page(p1.0));
                        assert(mem.is_table(p1.0));
                    }
                    mem.write_entry(p1.0, idx[1], pte);
                    self.pos = Ghost(
                        self.pos@.insert(
                            c.0,
                            NodePos::Leaf { i0: vpn_index0(vpn.0), i1: vpn_index1(vpn.0) },
                        ),
                    );
                    self.frames.push(f);
                    proof {
                        assert(0x01u8 as u64 == 1u64) by (bit_vector);
                        assert forall|q: u64|
                            !(set![c.0, p1.0]).contains(q) implies mem.page(q) == mm.page(q) by {}
                        assert(mem.page(c.0) == (crate::phys_mem::PageModel::TableP {
                            entries: Seq::new(512, |i: int| PageTableEntry { bits: 0 }),
                        }));
                        assert(mem.page(p1.0) == (crate::phys_mem::PageModel::TableP {
                            entries: mm.entries(p1.0).update(
                                vpn_index1(vpn.0) as int,
                                PageTableEntry { bits: c.0 << 10u64 | 1u64 },
                            ),
                        }));
                        lemma_attach_leaf(ptm, *self, mm, *mem, c.0, p1.0, vpn_index1(vpn.0));
                        assert(mem.page(root_pn.0) == mm.page(root_pn.0));
                        assert(self.owned() =~= ptm.owned().insert(c.0));
                        assert(allocator@.live() == am.live().insert(c.0));
                        assert forall|q: u64|
                            self.owned().contains(q) implies allocator@.live().contains(q) by {
                            if q != c.0 {
                                assert(ptm.owned().contains(q));
                            }
                        }
                        assert forall|q: u64|
                            !self.owned().contains(q) implies mem.page(q) == m0.page(q) by {
                            assert(!(set![c.0, p1.0]).contains(q));
                            assert(mem.page(q) == mm.page(q));
                            assert(!ptm.owned().contains(q));
                        }
                        assert forall|w: u64|
                            spec_translate(mem, root_pn.0, w) == spec_translate(&m0, root_pn.0, w)
                            by {
                            assert(spec_translate(mem, root_pn.0, w) == spec_translate(
                                &mm,
                                root_pn.0,
                                w,
                            ));
                        }
                    }
                    p2 = c;
                },
            }
        }
        proof {
            assert(self.wf(mem));
            assert(mem.is_table(p2.0));
            assert(pte_valid_bits(mem.entry(root_pn.0, vpn_index0(vpn.0) as int).bits));
            assert(pte_ppn_bits(mem.entry(root_pn.0, vpn_index0(vpn.0) as int).bits) == p1.0);
            assert(pte_valid_bits(mem.entry(p1.0, vpn_index1(vpn.0) as int).bits));
            assert(pte_ppn_bits(mem.entry(p1.0, vpn_index1(vpn.0) as int).bits) == p2.0);
            assert(spec_leaf_slot(mem, root_pn.0, vpn.0) == Some((p2.0, vpn_index2(vpn.0))));
        }
        Ok((p2, idx[2]))
    }

    /// Installs the mapping `vpn -> ppn` with `flags` plus the valid bit.
    /// A page whose leaf entry is already valid is refused, as is running
    /// out of frames for intermediate nodes; both are fatal kernel
    /// conditions.  Every other page translates exactly as before.
    pub fn map(
        &mut self,
        allocator: &mut crate::frame_allocator::StackFrameAllocator,
        mem: &mut PhysMemory,
        vpn: VirtPageNum,
        ppn: PhysPageNum,
        flags: PTEFlags,
    ) -> (r: Result<(), PagingError>)
        requires
            old(self).wf(old(mem)),
            old(mem).wf(),
            old(allocator)@.wf(),
            crate::frame_allocator::within(old(allocator)@, old(mem)),
            vpn.0 <= VPN_MASK,
            ppn.0 <= PPN_MASK,
            forall|q: u64|
                old(self).owned().contains(q) ==> old(allocator)@.live().contains(q),
        ensures
            final(self).root_ppn == old(self).root_ppn,
            final(self).wf(final(mem)),
            final(mem).wf(),
            final(allocator)@.wf(),
            crate::frame_allocator::within(final(allocator)@, final(mem)),
            final(mem).base == old(mem).base,
            final(mem).pages@.len() == old(mem).pages@.len(),
            final(mem).agrees_except(&*old(mem), final(self).owned()),
            forall|q: u64| old(self).owned().contains(q) ==> final(self).owned().contains(q),
            forall|q: u64|
                final(self).owned().contains(q) ==> old(self).owned().contains(q) || !old(
                    allocator,
                )@.live().contains(q),
            forall|q: u64|
                final(self).owned().contains(q) ==> final(allocator)@.live().contains(q),
            forall|q: u64|
                old(allocator)@.live().contains(q) ==> final(allocator)@.live().contains(q),
            forall|q: u64|
                final(allocator)@.live().contains(q) ==> old(allocator)@.live().contains(q)
                    || final(self).owned().contains(q),
            final(allocator)@.free_count() >= old(allocator)@.free_count() - 2,
            final(allocator)@.free_count() >= old(allocator)@.free_count() - spec_nodes_needed(
                &*old(mem),
                old(self).root_ppn.0,
                vpn.0,
            ),
            r is Ok <==> spec_translate(&*old(mem), old(self).root_ppn.0, vpn.0) is None && old(
                allocator,
            )@.free_count() >= spec_nodes_needed(&*old(mem), old(self).root_ppn.0, vpn.0),
            r == Err::<(), PagingError>(PagingError::AlreadyMapped) <==> spec_translate(
                &*old(mem),
                old(self).root_ppn.0,
                vpn.0,
            ) is Some,
            r == Err::<(), PagingError>(PagingError::AlreadyMapped) ==> *final(mem) == *old(mem)
                && *final(self) == *old(self) && final(allocator)@ == old(allocator)@,
            r is Ok ==> spec_translate(final(mem), old(self).root_ppn.0, vpn.0) == Some(
                PageTableEntry { bits: ppn.0 << 10u64 | ((flags.bits | PTE_V) as u64) },
            ),
            r is Err ==> forall|w: u64|
                spec_translate(final(mem), old(self).root_ppn.0, w) == spec_translate(
                    &*old(mem),
                    old(self).root_ppn.0,
                    w,
                ),
            forall|w: u64|
                w <= VPN_MASK && w != vpn.0 ==> spec_translate(
                    final(mem),
                    old(self).root_ppn.0,
                    w,
                ) == spec_translate(&*old(mem), old(self).root_ppn.0, w),
    {
        let ghost m0 = *old(mem);
        match self.find_pte_create(allocator, mem, vpn) {
            Err(e) => Err(e),
            Ok((t, i)) => {
                proof {
                    lemma_slot_pos(*self, *mem, vpn.0);
                }
                let e = mem.read_entry(t.0, i);
                if e.is_valid() {
                    proof {
                        assert(spec_translate(mem, self.root_ppn.0, vpn.0) is Some);
                        assert(spec_translate(&m0, self.root_ppn.0, vpn.0) is Some);
                        assert(spec_nodes_needed(&m0, self.root_ppn.0, vpn.0) == 0);
                    }
                    Err(PagingError::AlreadyMapped)
                } else {
                    let pte = PageTableEntry::new(ppn, PTEFlags::new(flags.bits | PTE_V));
                    let ghost mb = *mem;
                    let ghost ptb = *self;
                    proof {
                        let fb = flags.bits;
                        assert((fb | 0x01u8) & 0x01u8 == 0x01u8) by (bit_vector);
                        assert(pte_valid_bits(pte.bits));
                    }
                    mem.write_entry(t.0, i, pte);
                    proof {
                        assert(mem.page(t.0) == (crate::phys_mem::PageModel::TableP {
                            entries: mb.entries(t.0).update(vpn_index2(vpn.0) as int, pte),
                        }));
                        lemma_leaf_update(ptb, mb, *mem, vpn.0, t.0, pte);
                        assert(spec_translate(&mb, self.root_ppn.0, vpn.0) is None);
                        assert(spec_translate(&m0, self.root_ppn.0, vpn.0) is None);
                        assert(ptb.owned().contains(t.0));
                        assert forall|q: u64|
                            !self.owned().contains(q) implies mem.page(q) == m0.page(q) by {}
                    }
                    Ok(())
                }
            },
        }
    }

    /// Clears the mapping of `vpn`.  A page with no valid leaf entry is
    /// refused: a fatal kernel condition.  Every other page translates
    /// exactly as before.
    pub fn unmap(&mut self, mem: &mut PhysMemory, vpn: VirtPageNum) -> (r: Result<
        (),
        PagingError,
    >)
        requires
            old(self).wf(old(mem)),
            old(mem).wf(),
            vpn.0 <= VPN_MASK,
        ensures
            *final(self) == *old(self),
            final(self).wf(final(mem)),
            final(mem).wf(),
            final(mem).base == old(mem).base,
            final(mem).pages@.len() == old(mem).pages@.len(),
            final(mem).agrees_except(&*old(mem), old(self).owned()),
            r is Ok <==> spec_translate(&*old(mem), old(self).root_ppn.0, vpn.0) is Some,
            r == Err::<(), PagingError>(PagingError::NotMapped) <==> spec_translate(
                &*old(mem),
                old(self).root_ppn.0,
                vpn.0,
            ) is None,
            r is Err ==> *final(mem) == *old(mem),
            r is Ok ==> spec_translate(final(mem), old(self).root_ppn.0, vpn.0) is None,
            forall|w: u64|
                w <= VPN_MASK && w != vpn.0 ==> spec_translate(
                    final(mem),
                    old(self).root_ppn.0,
                    w,
                ) == spec_translate(&*old(mem), old(self).root_ppn.0, w),
    {
        let idx = vpn.indexes();
        let root_pn = self.root_ppn;
        proof {
            crate::address::lemma_vpn_indices_bounded(vpn.0);
        }
        let e0 = mem.read_entry(root_pn.0, idx[0]);
        if !e0.is_valid() {
            return Err(PagingError::NotMapped);
        }
        let p1 = e0.ppn();
        proof {
            assert(self.pos@.dom().contains(p1.0));
            assert(mem.is_table(p1.0));
        }
        let e1 = mem.read_entry(p1.0, idx[1]);
        if !e1.is_valid() {
            return Err(PagingError::NotMapped);
        }
        let p2 = e1.ppn();
        proof {
            assert(self.pos@.dom().contains(p2.0));
            assert(mem.is_table(p2.0));
        }
        let e2 = mem.read_entry(p2.0, idx[2]);
        if !e2.is_valid() {
            proof {
                assert(spec_translate(mem, root_pn.0, vpn.0) is None);
            }
            return Err(PagingError::NotMapped);
        }
        let pte = PageTableEntry::empty();
        let ghost mb = *mem;
        let ghost ptb = *self;
        proof {
            assert(spec_leaf_slot(mem, root_pn.0, vpn.0) == Some((p2.0, vpn_index2(vpn.0))));
            assert(spec_translate(mem, root_pn.0, vpn.0) is Some);
        }
        mem.write_entry(p2.0, idx[2], pte);
        proof {
            assert(mem.page(p2.0) == (crate::phys_mem::PageModel::TableP {
                entries: mb.entries(p2.0).update(vpn_index2(vpn.0) as int, pte),
            }));
            lemma_leaf_update(ptb, mb, *mem, vpn.0, p2.0, pte);
            assert(ptb.owned().contains(p2.0));
            assert forall|q: u64|
                !ptb.owned().contains(q) implies mem.page(q) == mb.page(q) by {}
        }
        Ok(())
    }
}

/// Packing a page number and flags into entry bits and reading them back
/// gives the page number and flags out again.
pub proof fn lemma_entry_decode(p: u64, f: u8)
    requires
        p <= PPN_MASK,
    ensures
        pte_ppn_bits(p << 10u64 | f as u64) == p,
        pte_flag_bits(p << 10u64 | f as u64) == f,
        pte_valid_bits(p << 10u64 | f as u64) == (f & PTE_V == PTE_V),
{
    lemma_pte_pack(p, f);
}

/// A page table is untouched by any memory change outside its own nodes:
/// it stays well formed and every page translates as before.
pub proof fn lemma_pt_untouched(pt: PageTable, m1: PhysMemory, m2: PhysMemory)
    requires
        pt.wf(&m1),
        forall|q: u64| pt.owned().contains(q) ==> #[trigger] m2.page(q) == m1.page(q),
    ensures
        pt.wf(&m2),
        forall|w: u64|
            spec_translate(&m2, pt.root_ppn.0, w) == spec_translate(&m1, pt.root_ppn.0, w),
{
    let root = pt.root_ppn.0;
    let pos = pt.pos@;
    assert(m2.page(root) == m1.page(root));
    assert forall|p: u64| #[trigger] pos.dom().contains(p) implies m2.page(p) == m1.page(p) by {
        assert(pt.owned().contains(p));
    }
    assert forall|i: int|
        0 <= i < 512 && pte_valid_bits(#[trigger] m2.entry(root, i).bits) implies {
        let c = pte_ppn_bits(m2.entry(root, i).bits);
        pos.dom().contains(c) && pos[c] == (NodePos::Mid { i0: i as u64 })
    } by {
        assert(m2.entry(root, i) == m1.entry(root, i));
        assert(pte_valid_bits(m1.entry(root, i).bits));
    }
    assert forall|p: u64, j: int|
        pos.dom().contains(p) && (#[trigger] pos[p]) is Mid && 0 <= j < 512 && pte_valid_bits(
            (#[trigger] m2.entry(p, j)).bits,
        ) implies {
        let c = pte_ppn_bits(m2.entry(p, j).bits);
        pos.dom().contains(c) && pos[c] == (NodePos::Leaf { i0: pos[p]->Mid_i0, i1: j as u64 })
    } by {
        assert(m2.page(p) == m1.page(p));
        assert(m2.entry(p, j) == m1.entry(p, j));
        assert(pte_valid_bits(m1.entry(p, j).bits));
    }
    assert(pt.wf(&m2));
    assert forall|w: u64| spec_translate(&m2, root, w) == spec_translate(&m1, root, w) by {
        crate::address::lemma_vpn_indices_bounded(w);
        assert(m2.entry(root, vpn_index0(w) as int) == m1.entry(root, vpn_index0(w) as int));
        let ew0 = m1.entry(root, vpn_index0(w) as int);
        if pte_valid_bits(ew0.bits) {
            let c1 = pte_ppn_bits(ew0.bits);
            assert(pos.dom().contains(c1));
            assert(m2.page(c1) == m1.page(c1));
            assert(m2.entry(c1, vpn_index1(w) as int) == m1.entry(c1, vpn_index1(w) as int));
            let ew1 = m1.entry(c1, vpn_index1(w) as int);
            if pte_valid_bits(ew1.bits) {
                let c2 = pte_ppn_bits(ew1.bits);
                assert(pos.dom().contains(c2));
                assert(m2.page(c2) == m1.page(c2));
                assert(m2.entry(c2, vpn_index2(w) as int) == m1.entry(c2, vpn_index2(w) as int));
            }
        }
    }
}

/// One maximal within-page piece of a translated byte span.
#[derive(Clone, Copy, Debug, PartialEq, Eq, Structural)]
pub struct ByteSegment {
    /// The physical page holding the piece.
    pub ppn: PhysPageNum,
    /// First byte offset within the page, included.
    pub start: usize,
    /// Last byte offset within the page, excluded.
    pub end: usize,
}

/// Whether every segment points at a data page with sane offsets.
pub open spec fn segs_wf(mem: &PhysMemory, segs: Seq<ByteSegment>) -> bool {
    forall|j: int|
        0 <= j < segs.len() ==> mem.is_data((#[trigger] segs[j]).ppn.0) && segs[j].start
            <= segs[j].end <= crate::config::PAGE_BYTES
}

/// The bytes a list of segments currently reads, in order.
pub open spec fn segs_bytes(mem: &PhysMemory, segs: Seq<ByteSegment>) -> Seq<u8>
    decreases segs.len(),
{
    if segs.len() == 0 {
        Seq::empty()
    } else {
        segs_bytes(mem, segs.drop_last()) + mem.bytes(segs.last().ppn.0).subrange(
            segs.last().start as int,
            segs.last().end as int,
        )
    }
}

/// The segments the walk yields for the byte span `[ptr, ptr + len)`:
/// one per page touched, in order.
pub open spec fn spec_buffer_segs(mem: &PhysMemory, root: u64, ptr: u64, len: u64) -> Seq<
    ByteSegment,
> {
    let first = ptr / crate::config::PAGE_SIZE;
    let last = (ptr + len - 1) / (crate::config::PAGE_SIZE as int);
    Seq::new(
        (last - first + 1) as nat,
        |j: int|
            ByteSegment {
                ppn: PhysPageNum(
                    pte_ppn_bits(spec_translate(mem, root, (first + j) as u64)->Some_0.bits),
                ),
                start: if j == 0 {
                    (ptr % crate::config::PAGE_SIZE) as usize
                } else {
                    0
                },
                end: if j == last - first {
                    (((ptr + len - 1) % (crate::config::PAGE_SIZE as int)) + 1) as usize
                } else {
                    crate::config::PAGE_BYTES
                },
            },
    )
}

/// Cuts the byte span `[ptr, ptr + len)` of the address space rooted at
/// `pt` into within-page segments: one per page touched, each naming the
/// physical page and the byte range within it.  Yields nothing as soon as
/// one touched page has no valid mapping, a fatal kernel condition.
pub fn translated_byte_buffer(
    pt: &PageTable,
    mem: &PhysMemory,
    ptr: u64,
    len: u64,
) -> (r: Option<Vec<ByteSegment>>)
    requires
        mem.wf(),
        ptr + len <= VPN_MASK * crate::config::PAGE_SIZE,
        len >= 1,
    ensures
        r is Some <==> forall|w: u64|
            ptr / crate::config::PAGE_SIZE <= w <= (ptr + len - 1) / (
            crate::config::PAGE_SIZE as int) ==> (#[trigger] spec_translate(
                mem,
                pt.root_ppn.0,
                w,
            )) is Some,
        r matches Some(v) ==> {
            let first = ptr / crate::config::PAGE_SIZE;
            let last = ((ptr + len - 1) / (crate::config::PAGE_SIZE as int)) as u64;
            &&& v@ == spec_buffer_segs(mem, pt.root_ppn.0, ptr, len)
            &&& v@.len() == last - first + 1
            &&& forall|j: int|
                0 <= j < v@.len() ==> (#[trigger] v@[j]).ppn.0 == pte_ppn_bits(
                    spec_translate(mem, pt.root_ppn.0, (first + j) as u64)->Some_0.bits,
                )
            &&& forall|j: int|
                0 <= j < v@.len() ==> (#[trigger] v@[j]).start == (if j == 0 {
                    (ptr % crate::config::PAGE_SIZE) as usize
                } else {
                    0
                })
            &&& forall|j: int|
                0 <= j < v@.len() ==> (#[trigger] v@[j]).end == (if j == v@.len() - 1 {
                    (((ptr + len - 1) % (crate::config::PAGE_SIZE as int)) + 1) as usize
                } else {
                    crate::config::PAGE_BYTES
                })
        },
{
    let first = ptr / crate::config::PAGE_SIZE;
    let last = (ptr + len - 1) / crate::config::PAGE_SIZE;
    let count = (last - first + 1) as usize;
    let mut v: Vec<ByteSegment> = Vec::new();
    let mut j: usize = 0;
    while j < count
        invariant
            mem.wf(),
            ptr + len <= VPN_MASK * crate::config::PAGE_SIZE,
            len >= 1,
            first == ptr / crate::config::PAGE_SIZE,
            last == (ptr + len - 1) / (crate::config::PAGE_SIZE as int),
            count == last - first + 1,
            j <= count,
            v@.len() == j,
            forall|w: u64|
                first <= w < first + j ==> (#[trigger] spec_translate(
                    mem,
                    pt.root_ppn.0,
                    w,
                )) is Some,
            forall|j2: int|
                0 <= j2 < j ==> (#[trigger] v@[j2]).ppn.0 == pte_ppn_bits(
                    spec_translate(mem, pt.root_ppn.0, (first + j2) as u64)->Some_0.bits,
                ),
            forall|j2: int|
                0 <= j2 < j ==> (#[trigger] v@[j2]).start == (if j2 == 0 {
                    (ptr % crate::config::PAGE_SIZE) as usize
                } else {
                    0
                }),
            forall|j2: int|
                0 <= j2 < j ==> (#[trigger] v@[j2]).end == (if j2 == count - 1 {
                    (((ptr + len - 1) % (crate::config::PAGE_SIZE as int)) + 1) as usize
                } else {
                    crate::config::PAGE_BYTES
                }),
        decreases count - j,
    {
        let vpn = VirtPageNum(first + j as u64);
        match pt.translate(mem, vpn) {
            None => {
                return None;
            },
            Some(pte) => {
                let seg_start: usize = if j == 0 {
                    (ptr % crate::config::PAGE_SIZE) as usize
                } else {
                    0
                };
                let seg_end: usize = if j == count - 1 {
                    ((ptr + len - 1) % crate::config::PAGE_SIZE) as usize + 1
                } else {
                    crate::config::PAGE_BYTES
                };
                v.push(ByteSegment { ppn: pte.ppn(), start: seg_start, end: seg_end });
            },
        }
        j = j + 1;
    }
    proof {
        assert(v@ =~= spec_buffer_segs(mem, pt.root_ppn.0, ptr, len));
    }
    Some(v)
}

/// Reads the bytes a list of segments currently holds, in order.
pub fn read_buffer(mem: &PhysMemory, segs: &Vec<ByteSegment>) -> (r: Vec<u8>)
    requires
        mem.wf(),
        segs_wf(mem, segs@),
    ensures
        r@ == segs_bytes(mem, segs@),
{
    let mut r: Vec<u8> = Vec::new();
    let n = segs.len();
    let mut j: usize = 0;
    while j < n
        invariant
            mem.wf(),
            segs_wf(mem, segs@),
            n == segs@.len(),
            j <= n,
            r@ == segs_bytes(mem, segs@.subrange(0, j as int)),
        decreases n - j,
    {
        let seg = segs[j];
        let mut off = seg.start;
        while off < seg.end
            invariant
                mem.wf(),
                segs_wf(mem, segs@),
                n == segs@.len(),
                j < n,
                seg == segs@[j as int],
                seg.start <= off <= seg.end,
                r@ == segs_bytes(mem, segs@.subrange(0, j as int)) + mem.bytes(seg.ppn.0).subrange(
                    seg.start as int,
                    off as int,
                ),
            decreases seg.end - off,
        {
            let b = mem.read_byte(seg.ppn.0, off);
            r.push(b);
            proof {
                assert(r@ =~= segs_bytes(mem, segs@.subrange(0, j as int)) + mem.bytes(
                    seg.ppn.0,
                ).subrange(seg.start as int, off + 1));
            }
            off = off + 1;
        }
        j = j + 1;
        proof {
            assert(segs@.subrange(0, j as int).drop_last() =~= segs@.subrange(0, j - 1));
            assert(segs@.subrange(0, j as int).last() == seg);
            assert(r@ =~= segs_bytes(mem, segs@.subrange(0, j as int)));
        }
    }
    proof {
        assert(segs@.subrange(0, n as int) =~= segs@);
    }
    r
}

/// Total byte length of the first `j` segments.
pub open spec fn segs_len_prefix(segs: Seq<ByteSegment>, j: int) -> int
    decreases j,
{
    if j <= 0 {
        0
    } else {
        segs_len_prefix(segs, j - 1) + segs[j - 1].end - segs[j - 1].start
    }
}

/// Writes `data` through a list of pairwise-distinct segments, in order;
/// afterwards the segments read exactly `data` back.
pub fn write_buffer(mem: &mut PhysMemory, segs: &Vec<ByteSegment>, data: &[u8])
    requires
        old(mem).wf(),
        segs_wf(old(mem), segs@),
        data@.len() == segs_len_prefix(segs@, segs@.len() as int),
        forall|j: int, j2: int|
            0 <= j < segs@.len() && 0 <= j2 < segs@.len() && j != j2 ==> (#[trigger] segs@[j]).ppn.0
                != (#[trigger] segs@[j2]).ppn.0,
    ensures
        final(mem).wf(),
        final(mem).base == old(mem).base,
        final(mem).pages@.len() == old(mem).pages@.len(),
        segs_wf(final(mem), segs@),
        segs_bytes(final(mem), segs@) == data@,
        forall|q: u64|
            (forall|j: int| 0 <= j < segs@.len() ==> (#[trigger] segs@[j]).ppn.0 != q)
                ==> #[trigger] final(mem).page(q) == old(mem).page(q),
        forall|j: int|
            0 <= j < segs@.len() ==> forall|o: int|
                0 <= o < crate::config::PAGE_BYTES && !((#[trigger] segs@[j]).start <= o
                    < segs@[j].end) ==> (#[trigger] final(mem).bytes(segs@[j].ppn.0)[o]) == old(
                    mem,
                ).bytes(segs@[j].ppn.0)[o],
{
    let n = segs.len();
    let mut j: usize = 0;
    let mut taken: usize = 0;
    proof {
        lemma_segs_len_prefix_bounds(segs@, 0);
    }
    while j < n
        invariant
            mem.wf(),
            mem.base == old(mem).base,
            mem.pages@.len() == old(mem).pages@.len(),
            segs_wf(old(mem), segs@),
            segs_wf(mem, segs@),
            n == segs@.len(),
            j <= n,
            data@.len() == segs_len_prefix(segs@, n as int),
            taken == segs_len_prefix(segs@, j as int),
            taken <= data@.len(),
            forall|j2: int, j3: int|
                0 <= j2 < segs@.len() && 0 <= j3 < segs@.len() && j2 != j3 ==> (
                #[trigger] segs@[j2]).ppn.0 != (#[trigger] segs@[j3]).ppn.0,
            segs_bytes(mem, segs@.subrange(0, j as int)) == data@.subrange(0, taken as int),
            forall|q: u64|
                (forall|j2: int| 0 <= j2 < j ==> (#[trigger] segs@[j2]).ppn.0 != q)
                    ==> #[trigger] mem.page(q) == old(mem).page(q),
            forall|j2: int|
                0 <= j2 < j ==> forall|o: int|
                    0 <= o < crate::config::PAGE_BYTES && !((#[trigger] segs@[j2]).start <= o
                        < segs@[j2].end) ==> (#[trigger] mem.bytes(segs@[j2].ppn.0)[o]) == old(
                        mem,
                    ).bytes(segs@[j2].ppn.0)[o],
        decreases n - j,
    {
        let seg = segs[j];
        let seglen = seg.end - seg.start;
        proof {
            lemma_segs_len_prefix_bounds(segs@, j as int + 1);
            assert(segs_len_prefix(segs@, j as int + 1) <= segs_len_prefix(
                segs@,
                n as int,
            )) by {
                lemma_segs_len_prefix_mono(segs@, j as int + 1, n as int);
            }
        }
        let ghost m_j = *mem;
        let mut off: usize = 0;
        while off < seglen
            invariant
                mem.wf(),
                mem.base == m_j.base,
                mem.pages@.len() == m_j.pages@.len(),
                segs_wf(mem, segs@),
                n == segs@.len(),
                j < n,
                seg == segs@[j as int],
                seglen == seg.end - seg.start,
                off <= seglen,
                taken + seglen <= data@.len(),
                data@.len() == data.len(),
                forall|o: int|
                    0 <= o < off ==> #[trigger] mem.bytes(seg.ppn.0)[seg.start + o] == data@[taken
                        + o],
                forall|o: int|
                    0 <= o < crate::config::PAGE_BYTES && !(seg.start <= o < seg.start + off)
                        ==> (#[trigger] mem.bytes(seg.ppn.0)[o]) == m_j.bytes(seg.ppn.0)[o],
                forall|q: u64| q != seg.ppn.0 ==> #[trigger] mem.page(q) == m_j.page(q),
            decreases seglen - off,
        {
            mem.write_byte(seg.ppn.0, seg.start + off, data[taken + off]);
            off = off + 1;
        }
        proof {
            let jj = j as int;
            assert(segs@.subrange(0, jj + 1).drop_last() =~= segs@.subrange(0, jj));
            assert(segs@[jj] == seg);
            assert(segs@.subrange(0, jj + 1).last() == seg);
            assert forall|j2: int| 0 <= j2 < jj implies (#[trigger] segs@[j2]).ppn.0
                != seg.ppn.0 by {}
            assert(m_j.page(seg.ppn.0) == old(mem).page(seg.ppn.0));
            assert(segs_bytes(mem, segs@.subrange(0, jj)) == data@.subrange(
                0,
                taken as int,
            )) by {
                lemma_segs_bytes_untouched(m_j, *mem, segs@.subrange(0, jj), seg.ppn.0);
            }
            assert forall|o: int|
                0 <= o < seglen implies #[trigger] mem.bytes(seg.ppn.0)[seg.start + o]
                == data@[taken + o] by {}
            assert forall|o: int|
                0 <= o < seglen implies mem.bytes(seg.ppn.0).subrange(
                seg.start as int,
                seg.end as int,
            )[o] == data@.subrange(taken as int, taken + seglen)[o] by {
                assert(mem.bytes(seg.ppn.0).subrange(seg.start as int, seg.end as int)[o]
                    == mem.bytes(seg.ppn.0)[seg.start + o]);
            }
            assert(mem.bytes(seg.ppn.0).subrange(seg.start as int, seg.end as int)
                =~= data@.subrange(taken as int, taken + seglen));
            assert(segs_bytes(mem, segs@.subrange(0, jj + 1)) =~= data@.subrange(
                0,
                taken + seglen,
            ));
            assert forall|q: u64|
                (forall|j2: int| 0 <= j2 < jj + 1 ==> (#[trigger] segs@[j2]).ppn.0 != q) implies
                #[trigger] mem.page(q) == old(mem).page(q) by {
                assert(segs@[jj] == seg);
                assert(segs@[jj].ppn.0 != q);
                assert(mem.page(q) == m_j.page(q));
            }
            assert forall|j2: int| 0 <= j2 < jj + 1 implies (forall|o: int|
                0 <= o < crate::config::PAGE_BYTES && !((#[trigger] segs@[j2]).start <= o
                    < segs@[j2].end) ==> (#[trigger] mem.bytes(segs@[j2].ppn.0)[o]) == old(
                    mem,
                ).bytes(segs@[j2].ppn.0)[o]) by {
                if j2 < jj {
                    assert(segs@[j2].ppn.0 != seg.ppn.0);
                    assert(mem.page(segs@[j2].ppn.0) == m_j.page(segs@[j2].ppn.0));
                    assert(mem.bytes(segs@[j2].ppn.0) == m_j.bytes(segs@[j2].ppn.0));
                    assert forall|o: int|
                        0 <= o < crate::config::PAGE_BYTES && !(segs@[j2].start <= o
                            < segs@[j2].end) implies (#[trigger] mem.bytes(segs@[j2].ppn.0)[o])
                        == old(mem).bytes(segs@[j2].ppn.0)[o] by {
                        assert(m_j.bytes(segs@[j2].ppn.0)[o] == old(mem).bytes(
                            segs@[j2].ppn.0,
                        )[o]);
                    }
                } else {
                    assert(segs@[j2] == seg);
                    assert forall|o: int|
                        0 <= o < crate::config::PAGE_BYTES && !(seg.start <= o < seg.end) implies (
                    #[trigger] mem.bytes(seg.ppn.0)[o]) == old(mem).bytes(seg.ppn.0)[o] by {
                        assert(mem.bytes(seg.ppn.0)[o] == m_j.bytes(seg.ppn.0)[o]);
                    }
                }
            }
        }
        j = j + 1;
        taken = taken + seglen;
    }
    proof {
        assert(segs@.subrange(0, n as int) =~= segs@);
        assert(data@.subrange(0, data@.len() as int) =~= data@);
    }
}

/// Prefix lengths of well-formed segments are non-negative.
proof fn lemma_segs_len_prefix_bounds(segs: Seq<ByteSegment>, j: int)
    requires
        0 <= j <= segs.len(),
        forall|k: int| 0 <= k < segs.len() ==> (#[trigger] segs[k]).start <= segs[k].end,
    ensures
        segs_len_prefix(segs, j) >= 0,
    decreases j,
{
    if j > 0 {
        lemma_segs_len_prefix_bounds(segs, j - 1);
    }
}

/// Prefix lengths grow with the prefix.
proof fn lemma_segs_len_prefix_mono(segs: Seq<ByteSegment>, j: int, n: int)
    requires
        0 <= j <= n <= segs.len(),
        forall|k: int|
            0 <= k < segs.len() ==> (#[trigger] segs[k]).start <= segs[k].end,
    ensures
        segs_len_prefix(segs, j) <= segs_len_prefix(segs, n),
    decreases n - j,
{
    if j < n {
        lemma_segs_len_prefix_mono(segs, j + 1, n);
    }
}

/// What a list of segments reads is unchanged by writes to a page none of
/// them sits on.
proof fn lemma_segs_bytes_untouched(
    m1: PhysMemory,
    m2: PhysMemory,
    segs: Seq<ByteSegment>,
    p: u64,
)
    requires
        forall|q: u64| q != p ==> #[trigger] m2.page(q) == m1.page(q),
        forall|j: int| 0 <= j < segs.len() ==> (#[trigger] segs[j]).ppn.0 != p,
    ensures
        segs_bytes(&m2, segs) == segs_bytes(&m1, segs),
    decreases segs.len(),
{
    if segs.len() > 0 {
        lemma_segs_bytes_untouched(m1, m2, segs.drop_last(), p);
        assert(m2.page(segs.last().ppn.0) == m1.page(segs.last().ppn.0));
    }
}


/// When a page is not the first of its 512-page block and its left
/// neighbour translates, the walk to it needs no new nodes: both pages
/// share their upper two indices, whose entries the neighbour's valid
/// translation shows to be in place.
pub proof fn lemma_same_block_zero_needed(mem: &PhysMemory, root: u64, v: u64)
    requires
        v >= 1,
        v % 512 != 0,
        spec_translate(mem, root, (v - 1) as u64) is Some,
    ensures
        spec_nodes_needed(mem, root, v) == 0,
{
    let w = (v - 1) as u64;
    assert(v % 512 == v & 511) by (bit_vector);
    assert(v >= 1 && v & 511 != 0 ==> (v >> 18u64) & 511u64 == ((v - 1) as u64 >> 18u64) & 511u64
        && (v >> 9u64) & 511u64 == ((v - 1) as u64 >> 9u64) & 511u64) by (bit_vector);
    assert(vpn_index0(v) == vpn_index0(w));
    assert(vpn_index1(v) == vpn_index1(w));
    assert(pte_valid_bits(mem.entry(root, vpn_index0(w) as int).bits));
    assert(pte_valid_bits(
        mem.entry(pte_ppn_bits(mem.entry(root, vpn_index0(w) as int).bits), vpn_index1(
            w,
        ) as int).bits,
    ));
}

/// The walk to any page needs at most two new nodes.
pub proof fn lemma_needed_at_most_two(mem: &PhysMemory, root: u64, v: u64)
    ensures
        0 <= spec_nodes_needed(mem, root, v) <= 2,
{
}


proof fn lemma_pte_pack(p: u64, f: u8)
    requires
        p <= PPN_MASK,
    ensures
        pte_ppn_bits(p << 10u64 | f as u64) == p,
        pte_flag_bits(p << 10u64 | f as u64) == f,
        pte_valid_bits(p << 10u64 | f as u64) == (f & PTE_V == PTE_V),
{
    assert(p <= 0xfff_ffff_ffffu64 ==> ((p << 10u64 | f as u64) >> 10u64) & 0xfff_ffff_ffffu64
        == p) by (bit_vector);
    assert(p <= 0xfff_ffff_ffffu64 ==> ((p << 10u64 | f as u64) & 0xffu64) as u8 == f)
        by (bit_vector);
    assert(p <= 0xfff_ffff_ffffu64 ==> (((p << 10u64 | f as u64) & 1u64 == 1u64) == (f & 0x01u8
        == 0x01u8))) by (bit_vector);
}

proof fn lemma_pte_zero()
    ensures
        !pte_valid_bits(0),
        pte_ppn_bits(0) == 0,
        pte_flag_bits(0) == 0,
{
    assert((0u64 >> 10u64) & 0xfff_ffff_ffffu64 == 0u64) by (bit_vector);
    assert((0u64 & 0xffu64) as u8 == 0u8) by (bit_vector);
    assert(0u64 & 1u64 == 0u64) by (bit_vector);
}

proof fn lemma_pte_ppn_bound(b: u64)
    ensures
        pte_ppn_bits(b) <= PPN_MASK,
{
    assert((b >> 10u64) & 0xfff_ffff_ffffu64 <= 0xfff_ffff_ffffu64) by (bit_vector);
}

proof fn lemma_pte_flag_tests(b: u64)
    ensures
        (b & 1u64 == 1u64) == pte_valid_bits(b),
        (b & 2u64 == 2u64) == (pte_flag_bits(b) & PTE_R == PTE_R),
        (b & 4u64 == 4u64) == (pte_flag_bits(b) & PTE_W == PTE_W),
        (b & 8u64 == 8u64) == (pte_flag_bits(b) & PTE_X == PTE_X),
{
    assert((b & 2u64 == 2u64) == ((b & 0xffu64) as u8 & 0x02u8 == 0x02u8)) by (bit_vector);
    assert((b & 4u64 == 4u64) == ((b & 0xffu64) as u8 & 0x04u8 == 0x04u8)) by (bit_vector);
    assert((b & 8u64 == 8u64) == ((b & 0xffu64) as u8 & 0x08u8 == 0x08u8)) by (bit_vector);
}

} // verus!
