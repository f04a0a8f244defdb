use vstd::prelude::*;

use crate::address::PPN_MASK;
use crate::config::{ENTRIES_PER_TABLE, PAGE_BYTES};
use crate::page_table::PageTableEntry;
use crate::trap_context::TrapContext;

verus! {

/// What one physical page currently holds.  The kernel reads every page
/// through exactly one of these typed views; this enum is the narrow
/// "physical page view" boundary of the whole system.
pub enum PageFrame {
    /// A page nothing has written yet.
    Unused,
    /// A page-table node of 512 entries.
    Table(Vec<PageTableEntry>),
    /// A plain data page of 4096 bytes.
    Data(Vec<u8>),
    /// A page holding one task's saved trap context.
    TrapFrame(TrapContext),
}

/// The mathematical shape of one physical page.
pub enum PageModel {
    /// Nothing written yet.
    Free,
    /// A page-table node.
    TableP { entries: Seq<PageTableEntry> },
    /// A plain data page.
    DataP { bytes: Seq<u8> },
    /// A saved trap context.
    TrapP { cx: TrapContext },
}

/// The model of one frame.
pub open spec fn frame_model(f: PageFrame) -> PageModel {
    match f {
        PageFrame::Unused => PageModel::Free,
        PageFrame::Table(v) => PageModel::TableP { entries: v@ },
        PageFrame::Data(v) => PageModel::DataP { bytes: v@ },
        PageFrame::TrapFrame(cx) => PageModel::TrapP { cx },
    }
}

/// Whether one frame has the size its kind demands.
pub open spec fn frame_wf(f: PageFrame) -> bool {
    match f {
        PageFrame::Unused => true,
        PageFrame::Table(v) => v@.len() == ENTRIES_PER_TABLE,
        PageFrame::Data(v) => v@.len() == PAGE_BYTES,
        PageFrame::TrapFrame(_) => true,
    }
}

/// The pool of physical pages the kernel may write, starting at page
/// number `base`.  All typed access to physical memory goes through the
/// bounds-checked methods of this one structure.
pub struct PhysMemory {
    /// First physical page number backed by the pool.
    pub base: u64,
    /// One frame per page from `base` upward.
    pub pages: Vec<PageFrame>,
}

impl PhysMemory {
    /// Every frame has the size its kind demands, and page numbers stay
    /// within the machine word.
    pub open spec fn wf(&self) -> bool {
        &&& self.base + self.pages@.len() <= PPN_MASK + 1
        &&& forall|i: int|
            0 <= i < self.pages@.len() ==> frame_wf(#[trigger] self.pages@[i])
    }

    /// Whether page `p` is backed by the pool.
    pub open spec fn in_range(&self, p: u64) -> bool {
        self.base <= p && p < self.base + self.pages@.len()
    }

    /// The model of page `p`; pages outside the pool read as free.
    pub open spec fn page(&self, p: u64) -> PageModel {
        if self.in_range(p) {
            frame_model(self.pages@[p - self.base])
        } else {
            PageModel::Free
        }
    }

    /// Whether page `p` is a page-table node.
    pub open spec fn is_table(&self, p: u64) -> bool {
        self.page(p) is TableP
    }

    /// The entries of table page `p`.
    pub open spec fn entries(&self, p: u64) -> Seq<PageTableEntry> {
        self.page(p)->TableP_entries
    }

    /// Entry `i` of table page `p`.
    pub open spec fn entry(&self, p: u64, i: int) -> PageTableEntry {
        self.entries(p)[i]
    }

    /// Whether page `p` is a plain data page.
    pub open spec fn is_data(&self, p: u64) -> bool {
        self.page(p) is DataP
    }

    /// The bytes of data page `p`.
    pub open spec fn bytes(&self, p: u64) -> Seq<u8> {
        self.page(p)->DataP_bytes
    }

    /// Whether page `p` holds a trap context.
    pub open spec fn is_trap(&self, p: u64) -> bool {
        self.page(p) is TrapP
    }

    /// The trap context held by page `p`.
    pub open spec fn trap_cx(&self, p: u64) -> TrapContext {
        self.page(p)->TrapP_cx
    }

    /// Whether every page outside `except` reads the same in `self` as in
    /// `other`, and the pool bounds agree.
    pub open spec fn agrees_except(&self, other: &PhysMemory, except: Set<u64>) -> bool {
        &&& self.base == other.base
        &&& self.pages@.len() == other.pages@.len()
        &&& forall|q: u64| !except.contains(q) ==> #[trigger] self.page(q) == other.page(q)
    }

    /// A fresh pool of `count` untouched pages starting at `base`.
    pub fn new(base: u64, count: usize) -> (r: PhysMemory)
        requires
            base + count <= PPN_MASK + 1,
        ensures
            r.wf(),
            r.base == base,
            r.pages@.len() == count,
            forall|q: u64| r.page(q) is Free,
    {
        let mut pages: Vec<PageFrame> = Vec::new();
        let mut i: usize = 0;
        while i < count
            invariant
                i <= count,
                pages@.len() == i,
                forall|k: int| 0 <= k < i ==> #[trigger] pages@[k] is Unused,
            decreases count - i,
        {
            pages.push(PageFrame::Unused);
            i = i + 1;
        }
        let r = PhysMemory { base, pages };
        assert forall|q: u64| r.page(q) is Free by {
            if r.in_range(q) {
                assert(r.pages@[q - r.base] is Unused);
            }
        }
        r
    }

    /// Overwrites page `p` with 4096 zero bytes.
    pub fn reset_data_page(&mut self, p: u64)
        requires
            old(self).wf(),
            old(self).in_range(p),
        ensures
            final(self).wf(),
            final(self).page(p) == (PageModel::DataP { bytes: Seq::new(PAGE_BYTES as nat, |i: int| 0u8) }),
            final(self).agrees_except(&*old(self), set![p]),
    {
        let n = self.pages.len();
        proof {
            assert(p - self.base < n);
        }
        let idx = (p - self.base) as usize;
        let zeroes = zero_bytes();
        let ghost prev = self.pages@;
        self.pages.set(idx, PageFrame::Data(zeroes));
        proof {
            assert(self.pages@ =~= prev.update(idx as int, self.pages@[idx as int]));
            assert forall|q: u64| !(set![p]).contains(q) implies #[trigger] self.page(q) == old(
                self,
            ).page(q) by {
                if self.in_range(q) {
                    assert(self.pages@[q - self.base] == prev[q - self.base]);
                }
            }
        }
    }

    /// Overwrites page `p` with a page-table node of 512 clear entries.
    pub fn reset_table_page(&mut self, p: u64)
        requires
            old(self).wf(),
            old(self).in_range(p),
        ensures
            final(self).wf(),
            final(self).page(p) == (PageModel::TableP {
                entries: Seq::new(ENTRIES_PER_TABLE as nat, |i: int| PageTableEntry { bits: 0 }),
            }),
            final(self).agrees_except(&*old(self), set![p]),
    {
        let n = self.pages.len();
        proof {
            assert(p - self.base < n);
        }
        let idx = (p - self.base) as usize;
        let entries = clear_entries();
        let ghost prev = self.pages@;
        self.pages.set(idx, PageFrame::Table(entries));
        proof {
            assert(self.pages@ =~= prev.update(idx as int, self.pages@[idx as int]));
            assert forall|q: u64| !(set![p]).contains(q) implies #[trigger] self.page(q) == old(
                self,
            ).page(q) by {
                if self.in_range(q) {
                    assert(self.pages@[q - self.base] == prev[q - self.base]);
                }
            }
        }
    }

    /// Whether page `p` currently reads as a page-table node.
    pub fn is_table_page(&self, p: u64) -> (r: bool)
        requires
            self.wf(),
        ensures
            r == self.is_table(p),
    {
        if p < self.base {
            return false;
        }
        let n = self.pages.len();
        if p - self.base >= n as u64 {
            return false;
        }
        let idx = (p - self.base) as usize;
        match &self.pages[idx] {
            PageFrame::Table(_) => true,
            _ => false,
        }
    }

    /// Whether page `p` currently reads as a plain data page.
    pub fn is_data_page(&self, p: u64) -> (r: bool)
        requires
            self.wf(),
        ensures
            r == self.is_data(p),
    {
        if p < self.base {
            return false;
        }
        let n = self.pages.len();
        if p - self.base >= n as u64 {
            return false;
        }
        let idx = (p - self.base) as usize;
        match &self.pages[idx] {
            PageFrame::Data(_) => true,
            _ => false,
        }
    }

    /// Reads entry `i` of table page `p`.
    pub fn read_entry(&self, p: u64, i: usize) -> (r: PageTableEntry)
        requires
            self.wf(),
            self.is_table(p),
            i < ENTRIES_PER_TABLE,
        ensures
            r == self.entry(p, i as int),
    {
        let n = self.pages.len();
        proof {
            assert(p - self.base < n);
        }
        let idx = (p - self.base) as usize;
        match &self.pages[idx] {
            PageFrame::Table(v) => v[i],
            _ => PageTableEntry { bits: 0 },
        }
    }

    /// Writes entry `i` of table page `p`.
    pub fn write_entry(&mut self, p: u64, i: usize, pte: PageTableEntry)
        requires
            old(self).wf(),
            old(self).is_table(p),
            i < ENTRIES_PER_TABLE,
        ensures
            final(self).wf(),
            final(self).page(p) == (PageModel::TableP {
                entries: old(self).entries(p).update(i as int, pte),
            }),
            final(self).agrees_except(&*old(self), set![p]),
    {
        let n = self.pages.len();
        proof {
            assert(p - self.base < n);
        }
        let idx = (p - self.base) as usize;
        let ghost prev = self.pages@;
        let frame = self.pages.remove(idx);
        let new_frame = match frame {
            PageFrame::Table(mut v) => {
                v.set(i, pte);
                PageFrame::Table(v)
            },
            other => other,
        };
        self.pages.insert(idx, new_frame);
        proof {
            assert(self.pages@ =~= prev.update(idx as int, self.pages@[idx as int]));
            assert forall|q: u64| !(set![p]).contains(q) implies #[trigger] self.page(q) == old(
                self,
            ).page(q) by {
                if self.in_range(q) {
                    assert(self.pages@[q - self.base] == prev[q - self.base]);
                }
            }
        }
    }

    /// Reads byte `i` of data page `p`.
    pub fn read_byte(&self, p: u64, i: usize) -> (r: u8)
        requires
            self.wf(),
            self.is_data(p),
            i < PAGE_BYTES,
        ensures
            r == self.bytes(p)[i as int],
    {
        let n = self.pages.len();
        proof {
            assert(p - self.base < n);
        }
        let idx = (p - self.base) as usize;
        match &self.pages[idx] {
            PageFrame::Data(v) => v[i],
            _ => 0,
        }
    }

    /// Writes byte `i` of data page `p`.
    pub fn write_byte(&mut self, p: u64, i: usize, b: u8)
        requires
            old(self).wf(),
            old(self).is_data(p),
            i < PAGE_BYTES,
        ensures
            final(self).wf(),
            final(self).page(p) == (PageModel::DataP {
                bytes: old(self).bytes(p).update(i as int, b),
            }),
            final(self).agrees_except(&*old(self), set![p]),
    {
        let n = self.pages.len();
        proof {
            assert(p - self.base < n);
        }
        let idx = (p - self.base) as usize;
        let ghost prev = self.pages@;
        let frame = self.pages.remove(idx);
        let new_frame = match frame {
            PageFrame::Data(mut v) => {
                v.set(i, b);
                PageFrame::Data(v)
            },
            other => other,
        };
        self.pages.insert(idx, new_frame);
        proof {
            assert(self.pages@ =~= prev.update(idx as int, self.pages@[idx as int]));
            assert forall|q: u64| !(set![p]).contains(q) implies #[trigger] self.page(q) == old(
                self,
            ).page(q) by {
                if self.in_range(q) {
                    assert(self.pages@[q - self.base] == prev[q - self.base]);
                }
            }
        }
    }

    /// Overwrites page `p` with a saved trap context.
    pub fn write_trap_cx(&mut self, p: u64, cx: TrapContext)
        requires
            old(self).wf(),
            old(self).in_range(p),
        ensures
            final(self).wf(),
            final(self).page(p) == (PageModel::TrapP { cx }),
            final(self).agrees_except(&*old(self), set![p]),
    {
        let n = self.pages.len();
        proof {
            assert(p - self.base < n);
        }
        let idx = (p - self.base) as usize;
        let ghost prev = self.pages@;
        self.pages.set(idx, PageFrame::TrapFrame(cx));
        proof {
            assert(self.pages@ =~= prev.update(idx as int, self.pages@[idx as int]));
            assert forall|q: u64| !(set![p]).contains(q) implies #[trigger] self.page(q) == old(
                self,
            ).page(q) by {
                if self.in_range(q) {
                    assert(self.pages@[q - self.base] == prev[q - self.base]);
                }
            }
        }
    }

    /// Overwrites data page `p` with the bytes of `data` from `src_off`
    /// onward, padding with zeroes once `data` runs out.
    pub fn fill_page(&mut self, p: u64, data: &[u8], src_off: usize)
        requires
            old(self).wf(),
            old(self).is_data(p),
        ensures
            final(self).wf(),
            final(self).page(p) == (PageModel::DataP {
                bytes: Seq::new(
                    PAGE_BYTES as nat,
                    |i: int|
                        if src_off + i < data@.len() {
                            data@[src_off + i]
                        } else {
                            0u8
                        },
                ),
            }),
            final(self).agrees_except(&*old(self), set![p]),
    {
        let n = self.pages.len();
        proof {
            assert(p - self.base < n);
        }
        let idx = (p - self.base) as usize;
        let mut page: Vec<u8> = Vec::new();
        let total = data.len();
        let mut i: usize = 0;
        while i < PAGE_BYTES
            invariant
                i <= PAGE_BYTES,
                total == data@.len(),
                page@.len() == i,
                forall|j: int|
                    0 <= j < i ==> #[trigger] page@[j] == (if src_off + j < data@.len() {
                        data@[src_off + j]
                    } else {
                        0u8
                    }),
            decreases PAGE_BYTES - i,
        {
            if src_off < total && i < total - src_off {
                page.push(data[src_off + i]);
            } else {
                page.push(0u8);
            }
            i = i + 1;
        }
        let ghost prev = self.pages@;
        self.pages.set(idx, PageFrame::Data(page));
        proof {
            assert(self.pages@ =~= prev.update(idx as int, self.pages@[idx as int]));
            assert(self.bytes(p) =~= Seq::new(
                PAGE_BYTES as nat,
                |i: int|
                    if src_off + i < data@.len() {
                        data@[src_off + i]
                    } else {
                        0u8
                    },
            ));
            assert forall|q: u64| !(set![p]).contains(q) implies #[trigger] self.page(q) == old(
                self,
            ).page(q) by {
                if self.in_range(q) {
                    assert(self.pages@[q - self.base] == prev[q - self.base]);
                }
            }
        }
    }

    /// Reads the trap context held by page `p`.
    pub fn read_trap_cx(&self, p: u64) -> (r: TrapContext)
        requires
            self.wf(),
            self.is_trap(p),
        ensures
            r == self.trap_cx(p),
    {
        let n = self.pages.len();
        proof {
            assert(p - self.base < n);
        }
        let idx = (p - self.base) as usize;
        match &self.pages[idx] {
            PageFrame::TrapFrame(cx) => *cx,
            _ => TrapContext {
                x: [0; 32],
                sstatus: 0,
                sepc: 0,
                kernel_satp: 0,
                kernel_sp: 0,
                trap_handler: 0,
            },
        }
    }
}

/// A page's worth of zero bytes.
fn zero_bytes() -> (v: Vec<u8>)
    ensures
        v@ == Seq::new(PAGE_BYTES as nat, |i: int| 0u8),
{
    let mut v: Vec<u8> = Vec::new();
    let mut i: usize = 0;
    while i < PAGE_BYTES
        invariant
            i <= PAGE_BYTES,
            v@.len() == i,
            forall|k: int| 0 <= k < i ==> v@[k] == 0u8,
        decreases PAGE_BYTES - i,
    {
        v.push(0u8);
        i = i + 1;
    }
    assert(v@ =~= Seq::new(PAGE_BYTES as nat, |i: int| 0u8));
    v
}

/// A table's worth of clear entries.
fn clear_entries() -> (v: Vec<PageTableEntry>)
    ensures
        v@ == Seq::new(ENTRIES_PER_TABLE as nat, |i: int| PageTableEntry { bits: 0 }),
{
    let mut v: Vec<PageTableEntry> = Vec::new();
    let mut i: usize = 0;
    while i < ENTRIES_PER_TABLE
        invariant
            i <= ENTRIES_PER_TABLE,
            v@.len() == i,
            forall|k: int| 0 <= k < i ==> v@[k] == (PageTableEntry { bits: 0 }),
        decreases ENTRIES_PER_TABLE - i,
    {
        v.push(PageTableEntry { bits: 0 });
        i = i + 1;
    }
    assert(v@ =~= Seq::new(ENTRIES_PER_TABLE as nat, |i: int| PageTableEntry { bits: 0 }));
    v
}

} // verus!
