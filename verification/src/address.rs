use vstd::prelude::*;

use crate::config::PAGE_SIZE;

verus! {

/// Number of significant bits of a physical address under SV39.
pub const PA_WIDTH_SV39: u64 = 56;
/// Number of significant bits of a virtual address under SV39.
pub const VA_WIDTH_SV39: u64 = 39;
/// Number of significant bits of a physical page number.
pub const PPN_WIDTH_SV39: u64 = 44;
/// Number of significant bits of a virtual page number.
pub const VPN_WIDTH_SV39: u64 = 27;

/// Mask keeping the significant bits of a physical address.
pub const PA_MASK: u64 = 0x00ff_ffff_ffff_ffff;
/// Mask keeping the significant bits of a virtual address.
pub const VA_MASK: u64 = 0x7f_ffff_ffff;
/// Mask keeping the significant bits of a physical page number.
pub const PPN_MASK: u64 = 0xfff_ffff_ffff;
/// Mask keeping the significant bits of a virtual page number.
pub const VPN_MASK: u64 = 0x7ff_ffff;
/// The sign bit of a 39-bit virtual address.
pub const VA_SIGN_BIT: u64 = 0x40_0000_0000;
/// The bits a sign-extended virtual address carries above its width.
pub const VA_SIGN_EXTENSION: u64 = 0xffff_ff80_0000_0000;

/// A physical address, width-masked on construction from a raw integer.
#[derive(Clone, Copy, Debug, PartialEq, Eq, Structural)]
pub struct PhysAddr(pub u64);

/// A virtual address, width-masked on construction from a raw integer.
#[derive(Clone, Copy, Debug, PartialEq, Eq, Structural)]
pub struct VirtAddr(pub u64);

/// A physical page number: a physical address with the offset bits removed.
#[derive(Clone, Copy, Debug, PartialEq, Eq, Structural)]
pub struct PhysPageNum(pub u64);

/// A virtual page number: a virtual address with the offset bits removed.
#[derive(Clone, Copy, Debug, PartialEq, Eq, Structural)]
pub struct VirtPageNum(pub u64);

impl From<u64> for PhysAddr {
    fn from(v: u64) -> Self {
        Self(v & PA_MASK)
    }
}

impl vstd::std_specs::convert::FromSpecImpl<u64> for PhysAddr {
    open spec fn obeys_from_spec() -> bool {
        true
    }

    open spec fn from_spec(v: u64) -> PhysAddr {
        PhysAddr(v & PA_MASK)
    }
}

impl From<u64> for VirtAddr {
    fn from(v: u64) -> Self {
        Self(v & VA_MASK)
    }
}

impl vstd::std_specs::convert::FromSpecImpl<u64> for VirtAddr {
    open spec fn obeys_from_spec() -> bool {
        true
    }

    open spec fn from_spec(v: u64) -> VirtAddr {
        VirtAddr(v & VA_MASK)
    }
}

impl From<u64> for PhysPageNum {
    fn from(v: u64) -> Self {
        Self(v & PPN_MASK)
    }
}

impl vstd::std_specs::convert::FromSpecImpl<u64> for PhysPageNum {
    open spec fn obeys_from_spec() -> bool {
        true
    }

    open spec fn from_spec(v: u64) -> PhysPageNum {
        PhysPageNum(v & PPN_MASK)
    }
}

impl From<u64> for VirtPageNum {
    fn from(v: u64) -> Self {
        Self(v & VPN_MASK)
    }
}

impl vstd::std_specs::convert::FromSpecImpl<u64> for VirtPageNum {
    open spec fn obeys_from_spec() -> bool {
        true
    }

    open spec fn from_spec(v: u64) -> VirtPageNum {
        VirtPageNum(v & VPN_MASK)
    }
}

impl From<PhysAddr> for u64 {
    fn from(v: PhysAddr) -> Self {
        v.0
    }
}

impl vstd::std_specs::convert::FromSpecImpl<PhysAddr> for u64 {
    open spec fn obeys_from_spec() -> bool {
        true
    }

    open spec fn from_spec(v: PhysAddr) -> u64 {
        v.0
    }
}

impl From<PhysPageNum> for u64 {
    fn from(v: PhysPageNum) -> Self {
        v.0
    }
}

impl vstd::std_specs::convert::FromSpecImpl<PhysPageNum> for u64 {
    open spec fn obeys_from_spec() -> bool {
        true
    }

    open spec fn from_spec(v: PhysPageNum) -> u64 {
        v.0
    }
}

impl From<VirtPageNum> for u64 {
    fn from(v: VirtPageNum) -> Self {
        v.0
    }
}

impl vstd::std_specs::convert::FromSpecImpl<VirtPageNum> for u64 {
    open spec fn obeys_from_spec() -> bool {
        true
    }

    open spec fn from_spec(v: VirtPageNum) -> u64 {
        v.0
    }
}

/// What a virtual address reads back as a raw integer: addresses with the
/// top virtual bit set are sign-extended, so that they compare and subtract
/// like the hardware-issued 64-bit form.
pub open spec fn virt_addr_bits(v: VirtAddr) -> u64 {
    if v.0 >= VA_SIGN_BIT {
        v.0 | VA_SIGN_EXTENSION
    } else {
        v.0
    }
}

impl From<VirtAddr> for u64 {
    fn from(v: VirtAddr) -> Self {
        if v.0 >= VA_SIGN_BIT {
            v.0 | VA_SIGN_EXTENSION
        } else {
            v.0
        }
    }
}

impl vstd::std_specs::convert::FromSpecImpl<VirtAddr> for u64 {
    open spec fn obeys_from_spec() -> bool {
        true
    }

    open spec fn from_spec(v: VirtAddr) -> u64 {
        virt_addr_bits(v)
    }
}

impl VirtAddr {
    /// The page containing this address.
    pub fn floor(&self) -> (r: VirtPageNum)
        ensures
            r.0 == self.0 / PAGE_SIZE,
    {
        VirtPageNum(self.0 / PAGE_SIZE)
    }

    /// The first page boundary at or above this address.
    pub fn ceil(&self) -> (r: VirtPageNum)
        requires
            self.0 <= u64::MAX - PAGE_SIZE,
        ensures
            r.0 == (self.0 + PAGE_SIZE - 1) / (PAGE_SIZE as int),
    {
        if self.0 == 0 {
            VirtPageNum(0)
        } else {
            VirtPageNum((self.0 - 1 + PAGE_SIZE) / PAGE_SIZE)
        }
    }

    /// The offset of this address within its page.
    pub fn page_offset(&self) -> (r: u64)
        ensures
            r == self.0 % PAGE_SIZE,
    {
        proof {
            lemma_low_bits_mask(self.0);
        }
        self.0 & (PAGE_SIZE - 1)
    }

    /// Whether this address lies on a page boundary.
    pub fn aligned(&self) -> (r: bool)
        ensures
            r == (self.0 % PAGE_SIZE == 0),
    {
        self.page_offset() == 0
    }
}

impl PhysAddr {
    /// The page containing this address.
    pub fn floor(&self) -> (r: PhysPageNum)
        ensures
            r.0 == self.0 / PAGE_SIZE,
    {
        PhysPageNum(self.0 / PAGE_SIZE)
    }

    /// The first page boundary at or above this address.
    pub fn ceil(&self) -> (r: PhysPageNum)
        requires
            self.0 <= u64::MAX - PAGE_SIZE,
        ensures
            r.0 == (self.0 + PAGE_SIZE - 1) / (PAGE_SIZE as int),
    {
        if self.0 == 0 {
            PhysPageNum(0)
        } else {
            PhysPageNum((self.0 - 1 + PAGE_SIZE) / PAGE_SIZE)
        }
    }

    /// The offset of this address within its page.
    pub fn page_offset(&self) -> (r: u64)
        ensures
            r == self.0 % PAGE_SIZE,
    {
        proof {
            lemma_low_bits_mask(self.0);
        }
        self.0 & (PAGE_SIZE - 1)
    }

    /// Whether this address lies on a page boundary.
    pub fn aligned(&self) -> (r: bool)
        ensures
            r == (self.0 % PAGE_SIZE == 0),
    {
        self.page_offset() == 0
    }
}

proof fn lemma_low_bits_mask(x: u64)
    ensures
        x & ((PAGE_SIZE - 1) as u64) == x % PAGE_SIZE,
{
    assert(x & 0xfff == x % 4096) by (bit_vector);
}

impl From<VirtPageNum> for VirtAddr {
    fn from(v: VirtPageNum) -> Self {
        Self(v.0 << 12u64)
    }
}

impl vstd::std_specs::convert::FromSpecImpl<VirtPageNum> for VirtAddr {
    open spec fn obeys_from_spec() -> bool {
        true
    }

    open spec fn from_spec(v: VirtPageNum) -> VirtAddr {
        VirtAddr(v.0 << 12u64)
    }
}

impl From<PhysPageNum> for PhysAddr {
    fn from(v: PhysPageNum) -> Self {
        Self(v.0 << 12u64)
    }
}

impl vstd::std_specs::convert::FromSpecImpl<PhysPageNum> for PhysAddr {
    open spec fn obeys_from_spec() -> bool {
        true
    }

    open spec fn from_spec(v: PhysPageNum) -> PhysAddr {
        PhysAddr(v.0 << 12u64)
    }
}

/// The highest of the three 9-bit page-table indices of a virtual page number.
pub open spec fn vpn_index0(v: u64) -> u64 {
    (v >> 18u64) & 511u64
}

/// The middle of the three 9-bit page-table indices of a virtual page number.
pub open spec fn vpn_index1(v: u64) -> u64 {
    (v >> 9u64) & 511u64
}

/// The lowest of the three 9-bit page-table indices of a virtual page number.
pub open spec fn vpn_index2(v: u64) -> u64 {
    v & 511u64
}

impl VirtPageNum {
    /// The three 9-bit page-table indices of this page number, highest level
    /// first; each selects one slot of a 512-entry table.
    pub fn indexes(&self) -> (r: [usize; 3])
        ensures
            r@ == seq![vpn_index0(self.0) as usize, vpn_index1(self.0) as usize, vpn_index2(
                self.0,
            ) as usize],
            vpn_index0(self.0) < 512,
            vpn_index1(self.0) < 512,
            vpn_index2(self.0) < 512,
    {
        let v = self.0;
        proof {
            lemma_vpn_indices_bounded(v);
        }
        let r = [((v >> 18u64) & 511u64) as usize, ((v >> 9u64) & 511u64) as usize, (v
            & 511u64) as usize];
        assert(r@ =~= seq![
            vpn_index0(v) as usize,
            vpn_index1(v) as usize,
            vpn_index2(v) as usize,
        ]);
        r
    }
}

/// Each of the three indices of any page number selects one of 512 slots.
pub proof fn lemma_vpn_indices_bounded(v: u64)
    ensures
        vpn_index0(v) < 512,
        vpn_index1(v) < 512,
        vpn_index2(v) < 512,
{
    assert((v >> 18u64) & 511u64 < 512u64) by (bit_vector);
    assert((v >> 9u64) & 511u64 < 512u64) by (bit_vector);
    assert(v & 511u64 < 512u64) by (bit_vector);
}

/// Two virtual page numbers with the same three indices and values within
/// the virtual-page-number width are the same page.
pub proof fn lemma_vpn_indexes_injective(a: u64, b: u64)
    requires
        a <= VPN_MASK,
        b <= VPN_MASK,
        vpn_index0(a) == vpn_index0(b),
        vpn_index1(a) == vpn_index1(b),
        vpn_index2(a) == vpn_index2(b),
    ensures
        a == b,
{
    assert(a <= 0x7ff_ffffu64 && b <= 0x7ff_ffffu64 && (a >> 18u64) & 511u64 == (b >> 18u64)
        & 511u64 && (a >> 9u64) & 511u64 == (b >> 9u64) & 511u64 && a & 511u64 == b & 511u64
        ==> a == b) by (bit_vector);
}

/// A type whose values advance one page at a time.
pub trait StepByOne: Sized {
    /// The integer a value stands for.
    spec fn sval(&self) -> int;

    /// Advance to the next value.
    fn step(&mut self)
        requires
            old(self).sval() < u64::MAX as int,
        ensures
            final(self).sval() == old(self).sval() + 1,
    ;

    /// Whether two values stand for the same integer.
    fn eq_val(&self, other: &Self) -> (r: bool)
        ensures
            r == (self.sval() == other.sval()),
    ;
}

impl StepByOne for VirtPageNum {
    open spec fn sval(&self) -> int {
        self.0 as int
    }

    fn step(&mut self) {
        self.0 = self.0 + 1;
    }

    fn eq_val(&self, other: &Self) -> (r: bool) {
        self.0 == other.0
    }
}

/// A half-open range of page numbers.
#[derive(Clone, Copy)]
pub struct SimpleRange<T: StepByOne + Copy> {
    /// Lower bound, included.
    pub l: T,
    /// Upper bound, excluded.
    pub r: T,
}

impl<T: StepByOne + Copy> SimpleRange<T> {
    /// The integer the lower bound stands for.
    pub open spec fn start_val(&self) -> int {
        self.l.sval()
    }

    /// The integer the upper bound stands for.
    pub open spec fn end_val(&self) -> int {
        self.r.sval()
    }

    /// The lower bound as a value.
    pub open spec fn spec_start(&self) -> T {
        self.l
    }

    /// The upper bound as a value.
    pub open spec fn spec_end(&self) -> T {
        self.r
    }

    /// Builds the range `[start, end)`.
    pub fn new(start: T, end: T) -> (s: Self)
        requires
            start.sval() <= end.sval(),
        ensures
            s.spec_start() == start,
            s.spec_end() == end,
    {
        Self { l: start, r: end }
    }

    /// The lower bound.
    pub fn get_start(&self) -> (r: T)
        ensures
            r == self.spec_start(),
    {
        self.l
    }

    /// The upper bound.
    pub fn get_end(&self) -> (r: T)
        ensures
            r == self.spec_end(),
    {
        self.r
    }

    /// An iterator over the pages of the range.
    pub fn iter(&self) -> (it: SimpleRangeIterator<T>)
        ensures
            it.cur_val() == self.start_val(),
            it.stop_val() == self.end_val(),
            it.spec_current() == self.spec_start(),
    {
        SimpleRangeIterator::new(self.l, self.r)
    }
}

/// Walks a `SimpleRange` one page at a time.
pub struct SimpleRangeIterator<T: StepByOne + Copy> {
    /// The next value to yield.
    pub current: T,
    /// Bound at which iteration stops.
    pub end: T,
}

impl<T: StepByOne + Copy> SimpleRangeIterator<T> {
    /// The integer the cursor stands for.
    pub open spec fn cur_val(&self) -> int {
        self.current.sval()
    }

    /// The integer the stopping bound stands for.
    pub open spec fn stop_val(&self) -> int {
        self.end.sval()
    }

    /// Builds an iterator running from `l` up to `r`.
    pub fn new(l: T, r: T) -> (s: Self)
        ensures
            s.cur_val() == l.sval(),
            s.stop_val() == r.sval(),
            s.current == l,
            s.end == r,
    {
        Self { current: l, end: r }
    }

    /// The cursor as a value.
    pub open spec fn spec_current(&self) -> T {
        self.current
    }

    /// Yields the next page number, or `None` once the bound is reached.
    pub fn next(&mut self) -> (r: Option<T>)
        requires
            old(self).cur_val() <= old(self).stop_val(),
            old(self).stop_val() <= u64::MAX as int,
        ensures
            final(self).stop_val() == old(self).stop_val(),
            old(self).cur_val() == old(self).stop_val() ==> r is None && final(self).cur_val()
                == old(self).cur_val(),
            old(self).cur_val() < old(self).stop_val() ==> r == Some(old(self).spec_current())
                && final(self).cur_val() == old(self).cur_val() + 1,
    {
        if self.current.eq_val(&self.end) {
            None
        } else {
            let t = self.current;
            self.current.step();
            Some(t)
        }
    }
}

/// A range of virtual page numbers.
pub type VPNRange = SimpleRange<VirtPageNum>;

/// On a page boundary the two page conversions agree; everywhere each lies
/// within one page of the other: `floor(v) <= ceil(v) <= floor(v) + 1`.
pub proof fn lemma_floor_ceil(v: VirtAddr)
    ensures
        v.0 % PAGE_SIZE == 0 ==> v.0 / PAGE_SIZE == (v.0 + PAGE_SIZE - 1) / (PAGE_SIZE as int),
        v.0 / PAGE_SIZE <= (v.0 + PAGE_SIZE - 1) / (PAGE_SIZE as int),
        (v.0 + PAGE_SIZE - 1) / (PAGE_SIZE as int) <= v.0 / PAGE_SIZE + 1,
{
    let x = v.0 as int;
    let p = PAGE_SIZE as int;
    vstd::arithmetic::div_mod::lemma_fundamental_div_mod(x, p);
    vstd::arithmetic::div_mod::lemma_mod_bound(x, p);
    if x % p == 0 {
        assert(x / p == (x + p - 1) / p) by (nonlinear_arith)
            requires
                x % p == 0,
                p == 4096,
                x >= 0,
        ;
    }
    assert(x / p <= (x + p - 1) / p <= x / p + 1) by (nonlinear_arith)
        requires
            p == 4096,
            x >= 0,
    ;
}

} // verus!
