use vstd::prelude::*;

use crate::address::PhysPageNum;
use crate::config::PAGE_BYTES;
use crate::phys_mem::{PageModel, PhysMemory};

verus! {

/// Why a frame could not be returned to the allocator.  Either is a fatal
/// kernel condition: the surrounding system shuts the machine down on it.
#[derive(Clone, Copy, Debug, PartialEq, Eq, Structural)]
pub enum FrameDeallocError {
    /// The page lies at or above the bump pointer, so it was never handed out.
    NotAllocated,
    /// The page is already sitting in the recycle stack.
    DoubleFree,
}

/// The mathematical state of the frame allocator.
pub struct AllocView {
    /// Bump pointer: the next never-yet-handed-out page.
    pub current: u64,
    /// One past the last page the allocator may hand out.
    pub end: u64,
    /// Pages handed out earlier and returned since, most recent last.
    pub recycled: Seq<u64>,
}

impl AllocView {
    /// The bump pointer has not passed the end, and the recycle stack holds
    /// distinct pages below the bump pointer.
    pub open spec fn wf(&self) -> bool {
        &&& self.current <= self.end
        &&& self.recycled.no_duplicates()
        &&& forall|i: int| 0 <= i < self.recycled.len() ==> #[trigger] self.recycled[i] < self.current
    }

    /// The pages currently held by some owner: handed out at some point and
    /// not in the recycle stack.
    pub open spec fn live(&self) -> Set<u64> {
        Set::new(|p: u64| p < self.current && !self.recycled.contains(p))
    }

    /// How many more allocations can succeed.
    pub open spec fn free_count(&self) -> int {
        self.recycled.len() + self.end - self.current
    }
}

/// What one allocation does: pop the most recently recycled page if any,
/// else advance the bump pointer, else fail.
pub open spec fn spec_alloc(a: AllocView) -> (AllocView, Option<u64>) {
    if a.recycled.len() > 0 {
        (
            AllocView { current: a.current, end: a.end, recycled: a.recycled.drop_last() },
            Some(a.recycled.last()),
        )
    } else if a.current == a.end {
        (a, None)
    } else {
        (
            AllocView { current: (a.current + 1) as u64, end: a.end, recycled: a.recycled },
            Some(a.current),
        )
    }
}

/// What returning page `p` does: refuse a page the bump pointer never
/// passed, refuse a page already recycled, else push it on the stack.
pub open spec fn spec_dealloc(a: AllocView, p: u64) -> (
    AllocView,
    Result<(), FrameDeallocError>,
) {
    if p >= a.current {
        (a, Err(FrameDeallocError::NotAllocated))
    } else if a.recycled.contains(p) {
        (a, Err(FrameDeallocError::DoubleFree))
    } else {
        (
            AllocView { current: a.current, end: a.end, recycled: a.recycled.push(p) },
            Ok(()),
        )
    }
}

/// Manages the pool of free physical pages: a bump pointer over the range
/// handed to `init`, plus a stack of recycled pages.
pub struct StackFrameAllocator {
    /// Bump pointer: the next never-yet-handed-out page.
    pub current: u64,
    /// One past the last page the allocator may hand out.
    pub end: u64,
    /// Pages handed out earlier and returned since.
    pub recycled: Vec<u64>,
}

impl View for StackFrameAllocator {
    type V = AllocView;

    open spec fn view(&self) -> AllocView {
        AllocView { current: self.current, end: self.end, recycled: self.recycled@ }
    }
}

impl StackFrameAllocator {
    /// An allocator over the empty range.
    pub fn new() -> (r: Self)
        ensures
            r@.current == 0,
            r@.end == 0,
            r@.recycled == Seq::<u64>::empty(),
            r@.wf(),
    {
        let r = Self { current: 0, end: 0, recycled: Vec::new() };
        proof {
            assert(r@.recycled =~= Seq::<u64>::empty());
        }
        r
    }

    /// Hands the allocator the range of pages `[l, r)` to manage.
    pub fn init(&mut self, l: PhysPageNum, r: PhysPageNum)
        requires
            old(self)@.recycled.len() == 0,
            l.0 <= r.0,
        ensures
            final(self)@.current == l.0,
            final(self)@.end == r.0,
            final(self)@.recycled == old(self)@.recycled,
            final(self)@.wf(),
    {
        self.current = l.0;
        self.end = r.0;
    }

    /// Hands out one page: the most recently recycled one if any are held,
    /// else the next page of the untouched range, else nothing.
    pub fn alloc_page(&mut self) -> (res: Option<PhysPageNum>)
        requires
            old(self)@.wf(),
        ensures
            final(self)@ == spec_alloc(old(self)@).0,
            final(self)@.wf(),
            res is None <==> spec_alloc(old(self)@).1 is None,
            res matches Some(pp) ==> spec_alloc(old(self)@).1 == Some(pp.0),
    {
        proof {
            lemma_alloc_step(old(self)@);
        }
        if self.recycled.len() > 0 {
            let p = self.recycled.pop().unwrap();
            Some(PhysPageNum(p))
        } else if self.current == self.end {
            None
        } else {
            let c = self.current;
            self.current = c + 1;
            Some(PhysPageNum(c))
        }
    }

    /// Takes page `ppn` back.  A page the bump pointer never passed or one
    /// already in the recycle stack is refused: both refusals are fatal
    /// conditions for the kernel, which the caller turns into a shutdown.
    pub fn dealloc(&mut self, ppn: PhysPageNum) -> (res: Result<(), FrameDeallocError>)
        requires
            old(self)@.wf(),
        ensures
            final(self)@ == spec_dealloc(old(self)@, ppn.0).0,
            res == spec_dealloc(old(self)@, ppn.0).1,
            final(self)@.wf(),
    {
        if ppn.0 >= self.current {
            return Err(FrameDeallocError::NotAllocated);
        }
        let n = self.recycled.len();
        let mut i: usize = 0;
        while i < n
            invariant
                n == self.recycled@.len(),
                i <= n,
                *self == *old(self),
                self@.wf(),
                ppn.0 < self.current,
                forall|k: int| 0 <= k < i ==> self.recycled@[k] != ppn.0,
            decreases n - i,
        {
            if self.recycled[i] == ppn.0 {
                return Err(FrameDeallocError::DoubleFree);
            }
            i = i + 1;
        }
        assert(!self.recycled@.contains(ppn.0));
        self.recycled.push(ppn.0);
        proof {
            lemma_dealloc_step(old(self)@, ppn.0);
        }
        Ok(())
    }
}

/// What one allocation changes: the page handed out was not live before and
/// is live afterwards, no other page changes hands, the count of free pages
/// drops by one, and allocation fails exactly when nothing is free.
pub proof fn lemma_alloc_step(a: AllocView)
    requires
        a.wf(),
    ensures
        spec_alloc(a).0.wf(),
        spec_alloc(a).1 is None <==> a.free_count() == 0,
        spec_alloc(a).1 is None ==> spec_alloc(a).0 == a,
        spec_alloc(a).1 matches Some(p) ==> !a.live().contains(p) && spec_alloc(a).0.live()
            == a.live().insert(p) && spec_alloc(a).0.free_count() == a.free_count() - 1
            && p < spec_alloc(a).0.current && a.current <= spec_alloc(a).0.current,
{
    let (b, r) = spec_alloc(a);
    if a.recycled.len() > 0 {
        let p = a.recycled.last();
        let d = a.recycled.drop_last();
        assert(a.recycled.contains(p));
        assert(d.no_duplicates());
        assert forall|q: u64| d.contains(q) implies a.recycled.contains(q) && q != p by {
            let i = choose|i: int| 0 <= i < d.len() && d[i] == q;
            assert(a.recycled[i] == q);
        }
        assert forall|q: u64| a.recycled.contains(q) && q != p implies d.contains(q) by {
            let i = choose|i: int| 0 <= i < a.recycled.len() && a.recycled[i] == q;
            assert(i < a.recycled.len() - 1);
            assert(d[i] == q);
        }
        assert(b.live() =~= a.live().insert(p));
    } else if a.current == a.end {
    } else {
        let p = a.current;
        assert(!a.live().contains(p));
        assert forall|q: u64| b.live().contains(q) implies a.live().insert(p).contains(q) by {}
        assert(b.live() =~= a.live().insert(p));
    }
}

/// What one successful deallocation changes: the page stops being live and
/// no other page changes hands; the refusals change nothing.
pub proof fn lemma_dealloc_step(a: AllocView, p: u64)
    requires
        a.wf(),
    ensures
        spec_dealloc(a, p).0.wf(),
        spec_dealloc(a, p).1 == Err::<(), FrameDeallocError>(FrameDeallocError::NotAllocated)
            <==> p >= a.current,
        spec_dealloc(a, p).1 is Err ==> spec_dealloc(a, p).0 == a,
        spec_dealloc(a, p).1 is Ok <==> a.live().contains(p),
        spec_dealloc(a, p).1 is Ok ==> spec_dealloc(a, p).0.live() == a.live().remove(p)
            && spec_dealloc(a, p).0.free_count() == a.free_count() + 1 && spec_dealloc(
            a,
            p,
        ).0.current == a.current,
{
    let (b, r) = spec_dealloc(a, p);
    if p >= a.current {
    } else if a.recycled.contains(p) {
    } else {
        assert forall|q: u64| a.recycled.push(p).contains(q) implies a.recycled.contains(q) || q
            == p by {
            let i = choose|i: int| 0 <= i < a.recycled.push(p).len() && a.recycled.push(p)[i] == q;
            if i < a.recycled.len() {
                assert(a.recycled[i] == q);
            }
        }
        assert forall|q: u64| a.recycled.contains(q) implies a.recycled.push(p).contains(q) by {
            let i = choose|i: int| 0 <= i < a.recycled.len() && a.recycled[i] == q;
            assert(a.recycled.push(p)[i] == q);
        }
        assert(a.recycled.push(p).contains(p)) by {
            assert(a.recycled.push(p)[a.recycled.len() as int] == p);
        }
        assert(b.live() =~= a.live().remove(p));
    }
}

/// Two allocations in a row hand out two different pages: the first page is
/// live while the second is chosen, and a live page is never handed out.
pub proof fn lemma_alloc_twice_distinct(a: AllocView)
    requires
        a.wf(),
        spec_alloc(a).1 is Some,
        spec_alloc(spec_alloc(a).0).1 is Some,
    ensures
        spec_alloc(a).1 != spec_alloc(spec_alloc(a).0).1,
{
    let (b, r1) = spec_alloc(a);
    let (c, r2) = spec_alloc(b);
    lemma_alloc_step(a);
    lemma_alloc_step(b);
    let p = r1->Some_0;
    let q = r2->Some_0;
    assert(b.live().contains(p));
    assert(!b.live().contains(q));
}

/// Returning a page and then allocating hands the same page straight back.
pub proof fn lemma_dealloc_then_alloc(a: AllocView, p: u64)
    requires
        a.wf(),
        spec_dealloc(a, p).1 is Ok,
    ensures
        spec_alloc(spec_dealloc(a, p).0).1 == Some(p),
{
    let b = spec_dealloc(a, p).0;
    assert(b.recycled.last() == p);
}

/// A page at or above the bump pointer was never handed out, and returning
/// it is refused.
pub proof fn lemma_dealloc_unallocated_rejected(a: AllocView, p: u64)
    requires
        a.wf(),
        p >= a.current,
    ensures
        spec_dealloc(a, p).1 == Err::<(), FrameDeallocError>(FrameDeallocError::NotAllocated),
        spec_alloc(a).1 matches Some(q) ==> q < spec_alloc(a).0.current,
{
    lemma_alloc_step(a);
}

/// One allocated physical page, held by exactly one owner; releasing it
/// hands the page number back to the allocator exactly once, by consuming
/// the tracker.
pub struct FrameTracker {
    /// The page this tracker owns.
    pub ppn: PhysPageNum,
}

impl FrameTracker {
    /// Takes ownership of `ppn` and zeroes the page.
    pub fn new(ppn: PhysPageNum, mem: &mut PhysMemory) -> (r: FrameTracker)
        requires
            old(mem).wf(),
            old(mem).in_range(ppn.0),
        ensures
            r.ppn == ppn,
            final(mem).wf(),
            final(mem).page(ppn.0) == (PageModel::DataP {
                bytes: Seq::new(PAGE_BYTES as nat, |i: int| 0u8),
            }),
            final(mem).agrees_except(&*old(mem), set![ppn.0]),
    {
        mem.reset_data_page(ppn.0);
        FrameTracker { ppn }
    }
}

/// Whether every page the allocator can still hand out is backed by the
/// physical pool.
pub open spec fn within(a: AllocView, mem: &PhysMemory) -> bool {
    &&& mem.base <= a.current
    &&& a.end <= mem.base + mem.pages@.len()
    &&& forall|i: int| 0 <= i < a.recycled.len() ==> mem.in_range(#[trigger] a.recycled[i])
}

/// Allocates one physical page and zeroes it, handing back its tracker.
pub fn frame_alloc(allocator: &mut StackFrameAllocator, mem: &mut PhysMemory) -> (r: Option<
    FrameTracker,
>)
    requires
        old(allocator)@.wf(),
        within(old(allocator)@, old(mem)),
        old(mem).wf(),
    ensures
        final(allocator)@ == spec_alloc(old(allocator)@).0,
        final(allocator)@.wf(),
        within(final(allocator)@, final(mem)),
        final(mem).wf(),
        final(mem).base == old(mem).base,
        final(mem).pages@.len() == old(mem).pages@.len(),
        r is None <==> spec_alloc(old(allocator)@).1 is None,
        r is None ==> *final(mem) == *old(mem),
        r matches Some(ft) ==> spec_alloc(old(allocator)@).1 == Some(ft.ppn.0) && old(
            mem,
        ).in_range(ft.ppn.0) && final(mem).page(ft.ppn.0) == (PageModel::DataP {
            bytes: Seq::new(PAGE_BYTES as nat, |i: int| 0u8),
        }) && final(mem).agrees_except(&*old(mem), set![ft.ppn.0]),
{
    proof {
        lemma_alloc_step(allocator@);
    }
    match allocator.alloc_page() {
        Some(ppn) => Some(FrameTracker::new(ppn, mem)),
        None => None,
    }
}

/// Releases the page a tracker owns back to the allocator.
pub fn frame_dealloc(
    allocator: &mut StackFrameAllocator,
    mem: &PhysMemory,
    frame: FrameTracker,
) -> (r: Result<(), FrameDeallocError>)
    requires
        old(allocator)@.wf(),
        within(old(allocator)@, mem),
        mem.in_range(frame.ppn.0),
    ensures
        final(allocator)@ == spec_dealloc(old(allocator)@, frame.ppn.0).0,
        r == spec_dealloc(old(allocator)@, frame.ppn.0).1,
        final(allocator)@.wf(),
        within(final(allocator)@, mem),
{
    allocator.dealloc(frame.ppn)
}

} // verus!
