use vstd::prelude::*;

use crate::config::PAGE_SIZE;

verus! {

/// Highest virtual address a loadable segment may reach; leaves the upper
/// part of the user space to the stack, the trap context and the
/// trampoline.
pub const MAX_SEGMENT_VA: u64 = 0x10_0000_0000;

/// Flag bit marking a segment executable.
pub const SEG_FLAG_X: u64 = 0x1;
/// Flag bit marking a segment writable.
pub const SEG_FLAG_W: u64 = 0x2;
/// Flag bit marking a segment readable.
pub const SEG_FLAG_R: u64 = 0x4;

/// The little-endian 16-bit number at byte `i`.
pub open spec fn le16(d: Seq<u8>, i: int) -> int {
    d[i] as int + 256 * (d[i + 1] as int)
}

/// The little-endian 32-bit number at byte `i`.
pub open spec fn le32(d: Seq<u8>, i: int) -> int {
    le16(d, i) + 0x10000 * le16(d, i + 2)
}

/// The little-endian 64-bit number at byte `i`.
pub open spec fn le64(d: Seq<u8>, i: int) -> int {
    le32(d, i) + 0x1_0000_0000 * le32(d, i + 4)
}

/// One loadable piece of a program image, as its header describes it.
#[derive(Clone, Copy, Debug, PartialEq, Eq, Structural)]
pub struct Segment {
    /// First virtual address the piece occupies.
    pub start_va: u64,
    /// Bytes the piece occupies in memory.
    pub mem_size: u64,
    /// Where the piece's bytes start within the image.
    pub offset: u64,
    /// How many bytes the image provides; the rest reads as zero.
    pub file_size: u64,
    /// Readable / writable / executable attribute bits.
    pub flags: u64,
}

/// What a program image tells the kernel: the entry point and the
/// loadable segments, in file order.
pub struct AppImage {
    /// Address at which the task starts executing.
    pub entry: u64,
    /// The loadable segments.
    pub segments: Vec<Segment>,
}

/// Start of the program-header table.
pub open spec fn ph_off(d: Seq<u8>) -> int {
    le64(d, 32)
}

/// Number of program headers.
pub open spec fn ph_count(d: Seq<u8>) -> int {
    le16(d, 56)
}

/// Start of program header `k`.
pub open spec fn ph_base(d: Seq<u8>, k: int) -> int {
    ph_off(d) + 56 * k
}

/// Whether program header `k` describes a loadable segment.
pub open spec fn ph_is_load(d: Seq<u8>, k: int) -> bool {
    le32(d, ph_base(d, k)) == 1
}

/// The segment program header `k` describes.
pub open spec fn ph_segment(d: Seq<u8>, k: int) -> Segment {
    Segment {
        start_va: le64(d, ph_base(d, k) + 16) as u64,
        mem_size: le64(d, ph_base(d, k) + 40) as u64,
        offset: le64(d, ph_base(d, k) + 8) as u64,
        file_size: le64(d, ph_base(d, k) + 32) as u64,
        flags: le32(d, ph_base(d, k) + 4) as u64,
    }
}

/// The loadable segments among the first `k` program headers, in order.
pub open spec fn load_segs(d: Seq<u8>, k: int) -> Seq<Segment>
    decreases k,
{
    if k <= 0 {
        Seq::empty()
    } else if ph_is_load(d, k - 1) {
        load_segs(d, k - 1).push(ph_segment(d, k - 1))
    } else {
        load_segs(d, k - 1)
    }
}

/// The image header is sane: the magic number is in place, program
/// headers have the expected size, and the whole table lies within the
/// image.
pub open spec fn header_ok(d: Seq<u8>) -> bool {
    &&& d.len() >= 64
    &&& d[0] == 0x7f
    &&& d[1] == 0x45
    &&& d[2] == 0x4c
    &&& d[3] == 0x46
    &&& le16(d, 54) == 56
    &&& ph_off(d) + 56 * ph_count(d) <= d.len()
}

/// The first page after a segment.
pub open spec fn seg_end_page(s: Segment) -> int {
    (s.start_va + s.mem_size + PAGE_SIZE - 1) / (PAGE_SIZE as int)
}

/// One segment is acceptable after the pages below `prev_end`: it starts
/// on a page boundary at or above them, its bytes lie within the image,
/// and it stays below the user-space ceiling.
pub open spec fn seg_ok(d: Seq<u8>, s: Segment, prev_end: int) -> bool {
    &&& s.start_va % PAGE_SIZE == 0
    &&& s.file_size <= s.mem_size
    &&& s.offset + s.file_size <= d.len()
    &&& s.start_va + s.mem_size <= MAX_SEGMENT_VA
    &&& prev_end <= s.start_va / PAGE_SIZE
}

/// The segments from `j` onward are acceptable in order, starting above
/// the pages below `prev_end`.
pub open spec fn segs_ok_from(d: Seq<u8>, segs: Seq<Segment>, j: int, prev_end: int) -> bool
    decreases segs.len() - j,
{
    if j < 0 || j >= segs.len() {
        true
    } else {
        seg_ok(d, segs[j], prev_end) && segs_ok_from(d, segs, j + 1, seg_end_page(segs[j]))
    }
}

/// A whole image the kernel accepts: sane header, loadable segments
/// page-aligned, in ascending page order and within bounds.
pub open spec fn image_ok(d: Seq<u8>) -> bool {
    header_ok(d) && segs_ok_from(d, load_segs(d, ph_count(d)), 0, 0)
}

/// Total pages the segments from `j` onward cover.
pub open spec fn segs_pages_from(segs: Seq<Segment>, j: int) -> int
    decreases segs.len() - j,
{
    if j < 0 || j >= segs.len() {
        0
    } else {
        seg_end_page(segs[j]) - segs[j].start_va / PAGE_SIZE + segs_pages_from(segs, j + 1)
    }
}

/// The first page above every loadable segment.
pub open spec fn image_end_page(d: Seq<u8>) -> int {
    let segs = load_segs(d, ph_count(d));
    if segs.len() == 0 {
        0
    } else {
        seg_end_page(segs.last())
    }
}

/// Frames that always suffice to build a task's space from an image: one
/// for the root node, two for the trampoline path, and three per page of
/// the segments, the user stack and the trap context.
pub open spec fn image_frames_needed(d: Seq<u8>) -> int {
    1 + 2 + 3 * (segs_pages_from(load_segs(d, ph_count(d)), 0) + crate::config::USER_STACK_SIZE
        / PAGE_SIZE + 1)
}

/// Every segment covers a non-negative count of pages.
pub proof fn lemma_segs_pages_bounds(d: Seq<u8>, segs: Seq<Segment>, j: int, prev_end: int)
    ensures
        segs_pages_from(segs, j) >= 0,
    decreases segs.len() - j,
{
    if 0 <= j < segs.len() {
        assert(seg_end_page(segs[j]) >= segs[j].start_va / PAGE_SIZE) by {
            vstd::arithmetic::div_mod::lemma_div_is_ordered(
                segs[j].start_va as int,
                segs[j].start_va + segs[j].mem_size + PAGE_SIZE - 1,
                PAGE_SIZE as int,
            );
        }
        lemma_segs_pages_bounds(d, segs, j + 1, seg_end_page(segs[j]));
    }
}

/// Reads the little-endian 16-bit number at byte `i`.
fn read_le16(d: &[u8], i: usize) -> (r: u64)
    requires
        i + 2 <= d@.len(),
    ensures
        r == le16(d@, i as int),
        r < 0x10000,
{
    let slice_len = d.len();
    let hi = d[i + 1] as u64;
    let _ = slice_len;
    d[i] as u64 + 256 * hi
}

/// Reads the little-endian 32-bit number at byte `i`.
fn read_le32(d: &[u8], i: usize) -> (r: u64)
    requires
        i + 4 <= d@.len(),
    ensures
        r == le32(d@, i as int),
        r < 0x1_0000_0000,
{
    let slice_len = d.len();
    read_le16(d, i) + 0x10000 * read_le16(d, i + 2)
}

/// Reads the little-endian 64-bit number at byte `i`.
fn read_le64(d: &[u8], i: usize) -> (r: u64)
    requires
        i + 8 <= d@.len(),
    ensures
        r == le64(d@, i as int),
{
    let slice_len = d.len();
    read_le32(d, i) + 0x1_0000_0000 * read_le32(d, i + 4)
}

/// Decodes a program image: checks the magic number and the header table,
/// collects the loadable segments, and accepts the image exactly when
/// every segment is page-aligned, in ascending page order, within the
/// image's bytes and below the user-space ceiling.
pub fn parse_app_image(data: &[u8]) -> (r: Option<AppImage>)
    ensures
        r is Some <==> image_ok(data@),
        r matches Some(img) ==> img.entry == le64(data@, 24) && img.segments@ == load_segs(
            data@,
            ph_count(data@),
        ),
{
    let dlen = data.len();
    if dlen < 64 {
        return None;
    }
    if !(data[0] == 0x7f && data[1] == 0x45 && data[2] == 0x4c && data[3] == 0x46) {
        return None;
    }
    let entsize = read_le16(data, 54);
    if entsize != 56 {
        return None;
    }
    let phoff = read_le64(data, 32);
    let count = read_le16(data, 56);
    if phoff > dlen as u64 {
        return None;
    }
    if 56 * count > dlen as u64 - phoff {
        return None;
    }
    let entry = read_le64(data, 24);
    let mut segments: Vec<Segment> = Vec::new();
    let mut k: usize = 0;
    let count_us = count as usize;
    while k < count_us
        invariant
            dlen == data@.len(),
            header_ok(data@),
            count_us == ph_count(data@),
            phoff == ph_off(data@),
            k <= count_us,
            phoff + 56 * count_us <= dlen,
            segments@ == load_segs(data@, k as int),
        decreases count_us - k,
    {
        let base = (phoff as usize) + 56 * k;
        let ptype = read_le32(data, base);
        if ptype == 1 {
            let seg = Segment {
                start_va: read_le64(data, base + 16),
                mem_size: read_le64(data, base + 40),
                offset: read_le64(data, base + 8),
                file_size: read_le64(data, base + 32),
                flags: read_le32(data, base + 4),
            };
            segments.push(seg);
            proof {
                assert(seg == ph_segment(data@, k as int));
                assert(segments@ == load_segs(data@, k + 1));
            }
        } else {
            proof {
                assert(segments@ == load_segs(data@, k + 1));
            }
        }
        k = k + 1;
    }
    // validate the collected segments in order
    let n = segments.len();
    let mut j: usize = 0;
    let mut prev_end: u64 = 0;
    while j < n
        invariant
            dlen == data@.len(),
            header_ok(data@),
            n == segments@.len(),
            j <= n,
            segments@ == load_segs(data@, ph_count(data@)),
            segs_ok_from(data@, segments@, 0, 0) == segs_ok_from(
                data@,
                segments@,
                j as int,
                prev_end as int,
            ),
            j > 0 ==> prev_end == seg_end_page(segments@[j - 1]),
            prev_end <= 0x1000_0000,
        decreases n - j,
    {
        let s = segments[j];
        if !(s.start_va % PAGE_SIZE == 0 && s.file_size <= s.mem_size && s.mem_size
            <= MAX_SEGMENT_VA && s.start_va <= MAX_SEGMENT_VA - s.mem_size && s.offset
            <= dlen as u64 && s.file_size <= dlen as u64 - s.offset && prev_end <= s.start_va
            / PAGE_SIZE) {
            proof {
                assert(!seg_ok(data@, s, prev_end as int));
                assert(!segs_ok_from(data@, segments@, j as int, prev_end as int));
            }
            return None;
        }
        proof {
            assert(seg_ok(data@, s, prev_end as int));
        }
        prev_end = (s.start_va + s.mem_size + (PAGE_SIZE - 1)) / PAGE_SIZE;
        j = j + 1;
    }
    proof {
        assert(segs_ok_from(data@, segments@, n as int, prev_end as int));
        assert(image_ok(data@));
    }
    Some(AppImage { entry, segments })
}

} // verus!
