//! How captured call arguments are classified and snapshotted: which guest
//! region a word points into, what kind of value it is, and which staged
//! host file backs an address.
use vstd::prelude::*;
use crate::sys::eapp::gl_trace::{hex_bytes, hex_encode, GlFileBacking, GlMemoryRegion, GlMemorySnapshot, GlValueClass};
use crate::sys::eapp::image::FILE_VMA_BASE;
use crate::sys::eapp::rasterizer::le32;

verus! {

/// Guest work RAM base address.
pub const WORK_RAM_BASE: u32 = 0x1000_0000;
/// Guest work RAM size in bytes.
pub const WORK_RAM_SIZE: usize = 0x400_0000;
/// Base of the import trampolines.
pub const TRAMPOLINE_BASE: u32 = 0x1f00_0000;

/// `a + b`, saturating at `u32::MAX`.
pub open spec fn sat_add(a: u32, b: int) -> int {
    if a + b > u32::MAX { u32::MAX as int } else { a + b }
}

/// The guest region `value` points into, for an image of `image_len` bytes.
pub open spec fn region_of(value: u32, image_len: u32) -> GlMemoryRegion {
    if WORK_RAM_BASE <= value < sat_add(WORK_RAM_BASE, WORK_RAM_SIZE as int) {
        GlMemoryRegion::WorkRam
    } else if FILE_VMA_BASE <= value < sat_add(FILE_VMA_BASE, image_len as int) {
        GlMemoryRegion::Image
    } else if TRAMPOLINE_BASE <= value < sat_add(TRAMPOLINE_BASE, 0x10000) {
        GlMemoryRegion::Trampoline
    } else {
        GlMemoryRegion::Unmapped
    }
}

/// What a captured word is: a pointer into work RAM, into code (image or
/// trampolines), a float (unmapped with exponent bits set) or a scalar.
pub open spec fn class_of(value: u32, image_len: u32) -> GlValueClass {
    match region_of(value, image_len) {
        GlMemoryRegion::WorkRam => GlValueClass::MappedPointer,
        GlMemoryRegion::Image | GlMemoryRegion::Trampoline => GlValueClass::CodePointer,
        GlMemoryRegion::Unmapped => if value & 0x7f80_0000 != 0 { GlValueClass::Float } else { GlValueClass::Scalar },
    }
}

pub fn memory_region(value: u32, image_len: u32) -> (r: GlMemoryRegion)
    ensures
        r == region_of(value, image_len),
{
    let work_end = WORK_RAM_BASE.saturating_add(WORK_RAM_SIZE as u32);
    let image_end = FILE_VMA_BASE.saturating_add(image_len);
    if WORK_RAM_BASE <= value && value < work_end {
        GlMemoryRegion::WorkRam
    } else if FILE_VMA_BASE <= value && value < image_end {
        GlMemoryRegion::Image
    } else if TRAMPOLINE_BASE <= value && value < TRAMPOLINE_BASE.saturating_add(0x10000) {
        GlMemoryRegion::Trampoline
    } else {
        GlMemoryRegion::Unmapped
    }
}

pub fn classify_trace_value(value: u32, image_len: u32) -> (c: GlValueClass)
    ensures
        c == class_of(value, image_len),
{
    match memory_region(value, image_len) {
        GlMemoryRegion::WorkRam => GlValueClass::MappedPointer,
        GlMemoryRegion::Image | GlMemoryRegion::Trampoline => GlValueClass::CodePointer,
        GlMemoryRegion::Unmapped => if value & 0x7f80_0000 != 0 { GlValueClass::Float } else { GlValueClass::Scalar },
    }
}

/// A snapshot of the bytes read at `addr` (reading stops at the first
/// unreadable byte): a null address or zero length gives an empty one.
pub fn snapshot_from_bytes(addr: u32, requested_len: usize, region: GlMemoryRegion,
    file_backing: Option<GlFileBacking>, bytes: &[u8]) -> (s: GlMemorySnapshot)
    requires
        bytes@.len() <= requested_len,
    ensures
        s.addr == addr,
        s.requested_len == requested_len,
        s.region == region,
        addr == 0 || requested_len == 0 ==> {
            &&& s.len == 0 && !s.truncated && s.file_backing is None && s.bytes_hex@.len() == 0
        },
        !(addr == 0 || requested_len == 0) ==> {
            &&& s.len == bytes@.len()
            &&& s.truncated == (bytes@.len() < requested_len)
            &&& s.file_backing == file_backing
            &&& s.bytes_hex@ == hex_encode(bytes@)
        },
{
    if addr == 0 || requested_len == 0 {
        return GlMemorySnapshot {
            addr,
            requested_len,
            len: 0,
            truncated: false,
            region,
            file_backing: None,
            bytes_hex: String::new(),
        };
    }
    GlMemorySnapshot {
        addr,
        requested_len,
        len: bytes.len(),
        truncated: bytes.len() < requested_len,
        region,
        file_backing,
        bytes_hex: hex_bytes(bytes),
    }
}

/// The little-endian words of a stack snapshot with their byte offsets;
/// a trailing partial word is dropped.
pub open spec fn stack_words_of(bytes: Seq<u8>) -> Seq<(usize, u32)> {
    Seq::new((bytes.len() / 4) as nat, |i: int| ((4 * i) as usize, le32(bytes, 4 * i) as u32))
}

pub fn stack_word_values(bytes: &[u8]) -> (out: Vec<(usize, u32)>)
    ensures
        out@ == stack_words_of(bytes@),
{
    let n = bytes.len() / 4;
    assert(bytes@.len() == bytes.len());
    let mut out: Vec<(usize, u32)> = Vec::new();
    let mut i: usize = 0;
    while i < n
        invariant
            n == bytes@.len() / 4,
            bytes@.len() <= usize::MAX,
            i <= n,
            out@ == Seq::new(i as nat, |k: int| ((4 * k) as usize, le32(bytes@, 4 * k) as u32)),
        decreases n - i,
    {
        let v = crate::sys::eapp::rasterizer::read_le32(bytes, 4 * i);
        out.push((4 * i, v));
        i += 1;
        assert(out@ =~= Seq::new(i as nat, |k: int| ((4 * k) as usize, le32(bytes@, 4 * k) as u32)));
    }
    out
}

/// A host file staged into guest memory.
pub struct StagedFile {
    /// Delivery order; later deliveries win where buffers overlap.
    pub generation: u64,
    pub payload_addr: u32,
    pub len: u32,
    /// The file's path as shown in captures.
    pub path: String,
}

/// Whether staged file `f` covers `addr` (its end saturating).
pub open spec fn covers(f: StagedFile, addr: u32) -> bool {
    f.payload_addr <= addr < sat_add(f.payload_addr, f.len as int)
}

/// The position of the covering file with the highest generation among
/// the first `upto` (the later one on ties).
pub open spec fn best_cover(files: Seq<StagedFile>, addr: u32, upto: int) -> Option<int>
    decreases upto,
{
    if upto <= 0 || upto > files.len() {
        None
    } else {
        let prev = best_cover(files, addr, upto - 1);
        if covers(files[upto - 1], addr) && (prev matches Some(p) ==> files[p].generation <= files[upto - 1].generation) {
            Some(upto - 1)
        } else {
            prev
        }
    }
}

proof fn lemma_best_cover_bounds(files: Seq<StagedFile>, addr: u32, upto: int)
    ensures
        best_cover(files, addr, upto) matches Some(p) ==> 0 <= p < upto <= files.len() && covers(files[p], addr),
    decreases upto,
{
    if 0 < upto <= files.len() {
        lemma_best_cover_bounds(files, addr, upto - 1);
    }
}

/// The file backing at `addr`: the most recently delivered staged file
/// covering it, with the offset of `addr` in it.
pub fn file_backing_for_addr(files: &Vec<StagedFile>, addr: u32) -> (r: Option<GlFileBacking>)
    ensures
        match best_cover(files@, addr, files@.len() as int) {
            Some(p) => r matches Some(b) && b.path@ == files@[p].path@ && b.base_addr == files@[p].payload_addr
                && b.len == files@[p].len && b.offset == addr - files@[p].payload_addr,
            None => r is None,
        },
{
    let mut best: Option<usize> = None;
    let mut k: usize = 0;
    while k < files.len()
        invariant
            k <= files@.len(),
            match best_cover(files@, addr, k as int) {
                Some(p) => best == Some(p as usize),
                None => best is None,
            },
        decreases files@.len() - k,
    {
        proof {
            lemma_best_cover_bounds(files@, addr, k as int);
        }
        let f = &files[k];
        let end = f.payload_addr.saturating_add(f.len);
        if f.payload_addr <= addr && addr < end {
            let better = match best {
                Some(p) => files[p].generation <= f.generation,
                None => true,
            };
            if better {
                best = Some(k);
            }
        }
        k += 1;
    }
    proof {
        lemma_best_cover_bounds(files@, addr, files@.len() as int);
    }
    match best {
        Some(p) => {
            let f = &files[p];
            Some(GlFileBacking {
                path: f.path.clone(),
                base_addr: f.payload_addr,
                len: f.len,
                offset: addr - f.payload_addr,
            })
        },
        None => None,
    }
}

/// How many bytes to read for a render-server program at an address: the
/// rest of its backing file, else the hint (unless zero or all ones),
/// else 256 KiB; never more than 512 KiB.
pub open spec fn usse_read_len_spec(backing: Option<(u32, u32)>, len_hint: u32) -> int {
    let len: int = match backing {
        Some((len, offset)) => if len >= offset { len - offset } else { 0 },
        None => if len_hint != 0 && len_hint != u32::MAX { len_hint as int } else { 256 * 1024int },
    };
    if len < 512 * 1024 { len } else { 512 * 1024int }
}

/// `backing` is the (length, offset) of the file backing the address.
pub fn usse_read_len(backing: Option<(u32, u32)>, len_hint: u32) -> (n: usize)
    ensures
        n == usse_read_len_spec(backing, len_hint),
{
    let len: usize = match backing {
        Some((len, offset)) => len.saturating_sub(offset) as usize,
        None => if len_hint != 0 && len_hint != u32::MAX { len_hint as usize } else { 256 * 1024 },
    };
    if len < 512 * 1024 { len } else { 512 * 1024 }
}

/// The bump allocator behind the guest's zeroed allocations in work RAM.
pub struct WorkRamAllocator {
    /// The next free address.
    pub next: u32,
}

impl WorkRamAllocator {
    /// Allocate `len` bytes rounded up to 16: the block's address, or 0
    /// (and nothing allocated) when it would pass the end of work RAM.
    pub fn alloc_zeroed(&mut self, len: u32) -> (addr: u32)
        requires
            len <= u32::MAX - 15,
        ensures
            ({
                let size = (len + 15) / 16 * 16;
                let end = sat_add(old(self).next, size);
                &&& end <= WORK_RAM_BASE + WORK_RAM_SIZE ==> addr == old(self).next && final(self).next == end
                &&& end > WORK_RAM_BASE + WORK_RAM_SIZE ==> addr == 0 && final(self).next == old(self).next
            }),
    {
        let padded = len + 0xf;
        let size = padded & !0xfu32;
        assert(size == (len + 15) / 16 * 16) by (bit_vector)
            requires
                len <= 0xffff_fff0u32,
                padded == len + 0xf,
                size == padded & !0xfu32;
        let addr = self.next;
        let end = addr.saturating_add(size);
        if end <= WORK_RAM_BASE + WORK_RAM_SIZE as u32 {
            self.next = end;
            addr
        } else {
            0
        }
    }
}

} // verus!
