//! The eApp guest bus: which device an address reaches, the hardware-stub
//! window with its DMA framebuffer, and write watchpoints. Image and work
//! RAM accesses are handed back to the caller as offsets into those RAMs.
use vstd::prelude::*;
use crate::sys::eapp::capture::{WORK_RAM_BASE, WORK_RAM_SIZE};
use crate::sys::eapp::image::FILE_VMA_BASE;
use crate::sys::eapp::runner::ranges_overlap;
use crate::parse::{chars_of, find_char, find_char_in, parse_uint, parse_uint_range, trim, trim_bounds};

verus! {

/// Base of the hardware-stub window.
pub const HW_STUB_BASE: u32 = 0x1400_0000;
/// Size of the hardware-stub window.
pub const HW_STUB_SIZE: usize = 0x400_0000;
/// Size of the DMA framebuffer (320 x 240 RGB565).
pub const DMA_FB_SIZE: usize = 153600;
/// Offset of the DMA framebuffer inside the stub window.
pub const DMA_FB_OFFSET: u32 = 0x20000;
/// Most watchpoint hits kept.
pub const WATCH_LOG_LIMIT: usize = 4096;

/// Where an address lands.
#[derive(Debug, Clone, Copy, PartialEq, Eq, Structural)]
pub enum BusTarget {
    /// Offset into the executable image.
    Image(u32),
    /// Offset into work RAM.
    WorkRam(u32),
    /// Offset into the hardware-stub window.
    HwStub(u32),
    Unmapped,
}

/// The target of `offset` for an image of `image_len` bytes; the image
/// mapping wins, then work RAM, then the stub window.
pub open spec fn target_of(offset: u32, image_len: u32) -> BusTarget {
    if offset >= FILE_VMA_BASE && offset - FILE_VMA_BASE < image_len {
        BusTarget::Image((offset - FILE_VMA_BASE) as u32)
    } else if offset >= WORK_RAM_BASE && offset - WORK_RAM_BASE < WORK_RAM_SIZE {
        BusTarget::WorkRam((offset - WORK_RAM_BASE) as u32)
    } else if offset >= HW_STUB_BASE && offset - HW_STUB_BASE < HW_STUB_SIZE {
        BusTarget::HwStub((offset - HW_STUB_BASE) as u32)
    } else {
        BusTarget::Unmapped
    }
}

pub fn bus_target(offset: u32, image_len: u32) -> (t: BusTarget)
    ensures
        t == target_of(offset, image_len),
{
    if offset >= FILE_VMA_BASE && offset - FILE_VMA_BASE < image_len {
        BusTarget::Image(offset - FILE_VMA_BASE)
    } else if offset >= WORK_RAM_BASE && offset - WORK_RAM_BASE < WORK_RAM_SIZE as u32 {
        BusTarget::WorkRam(offset - WORK_RAM_BASE)
    } else if offset >= HW_STUB_BASE && offset - HW_STUB_BASE < HW_STUB_SIZE as u32 {
        BusTarget::HwStub(offset - HW_STUB_BASE)
    } else {
        BusTarget::Unmapped
    }
}

/// The outcome of a bus read.
#[derive(Debug, Clone, Copy, PartialEq, Eq, Structural)]
pub enum BusRead {
    /// Read the image RAM at this offset.
    Image(u32),
    /// Read work RAM at this offset.
    WorkRam(u32),
    /// The stub window answered with this value.
    Value(u32),
    Unexpected,
}

/// The outcome of a bus write.
#[derive(Debug, Clone, Copy, PartialEq, Eq, Structural)]
pub enum BusWrite {
    /// Write the image RAM at this offset.
    Image(u32),
    /// Write work RAM at this offset.
    WorkRam(u32),
    /// The stub window took the write.
    Done,
    Unexpected,
}

/// A watched write: address, value, and the executing instruction.
#[derive(Debug, Clone, Copy, PartialEq, Eq, Structural)]
pub struct WatchHit {
    pub addr: u32,
    pub val: u32,
    pub pc: u32,
}

/// The bus state beyond the two RAMs.
pub struct EappBus {
    pub image_len: u32,
    pub dma_framebuf: Vec<u8>,
    /// Writes of 32-bit words to the DMA framebuffer.
    pub hw_fb_write_count: usize,
    pub hw_fb_write_min: u32,
    pub hw_fb_write_max: u32,
    /// Frames seen: incremented when pixel 0 is rewritten.
    pub hw_dma_frame: usize,
    /// The DMA framebuffer was written since last presented.
    pub hw_dma_dirty: bool,
    /// Write watchpoint range (start, end exclusive).
    pub watch: Option<(u32, u32)>,
    /// The instruction currently executing.
    pub pending_pc: u32,
    pub watch_log: Vec<WatchHit>,
}

/// Little-endian value of `n` bytes of `s` at `o`.
pub open spec fn le_value(s: Seq<u8>, o: int, n: int) -> int
    decreases n,
{
    if n <= 0 { 0 } else { s[o] + 256 * le_value(s, o + 1, n - 1) }
}

/// `s` with the `n` little-endian bytes of `v` stored at `o`.
pub open spec fn store_le(s: Seq<u8>, o: int, v: int, n: int) -> Seq<u8>
    decreases n,
{
    if n <= 0 { s } else { store_le(s.update(o, (v % 256) as u8), o + 1, v / 256, n - 1) }
}

/// The log after a watched write: appended, keeping at most the first
/// `WATCH_LOG_LIMIT` entries.
pub open spec fn logged(log: Seq<WatchHit>, hit: WatchHit) -> Seq<WatchHit> {
    let l = log.push(hit);
    if l.len() > WATCH_LOG_LIMIT { l.take(WATCH_LOG_LIMIT as int) } else { l }
}

impl EappBus {
    /// A bus for an image of `image_len` bytes: an all-zero DMA
    /// framebuffer, no writes seen and no watchpoint.
    pub fn new(image_len: u32) -> (b: EappBus)
        ensures
            b.image_len == image_len,
            b.dma_framebuf@ == Seq::new(DMA_FB_SIZE as nat, |_i: int| 0u8),
            b.hw_fb_write_count == 0 && b.hw_fb_write_min == u32::MAX && b.hw_fb_write_max == 0,
            b.hw_dma_frame == 0 && !b.hw_dma_dirty,
            b.watch is None && b.pending_pc == 0 && b.watch_log@.len() == 0,
    {
        let mut fb: Vec<u8> = Vec::new();
        let mut k: usize = 0;
        while k < DMA_FB_SIZE
            invariant
                k <= DMA_FB_SIZE,
                fb@ == Seq::new(k as nat, |_i: int| 0u8),
            decreases DMA_FB_SIZE - k,
        {
            fb.push(0);
            k += 1;
            assert(fb@ =~= Seq::new(k as nat, |_i: int| 0u8));
        }
        EappBus {
            image_len,
            dma_framebuf: fb,
            hw_fb_write_count: 0,
            hw_fb_write_min: u32::MAX,
            hw_fb_write_max: 0,
            hw_dma_frame: 0,
            hw_dma_dirty: false,
            watch: None,
            pending_pc: 0,
            watch_log: Vec::new(),
        }
    }

    /// Record a write of `len` bytes of `val` at `addr` when it meets the
    /// watch range.
    fn note_watch(&mut self, addr: u32, len: u32, val: u32)
        ensures
            final(self).watch_log@ == match old(self).watch {
                Some((start, end)) => if addr < end && start < (if addr + len > u32::MAX { u32::MAX as int } else { addr + len }) {
                    logged(old(self).watch_log@, WatchHit { addr, val, pc: old(self).pending_pc })
                } else {
                    old(self).watch_log@
                },
                None => old(self).watch_log@,
            },
            *final(self) == (EappBus { watch_log: final(self).watch_log, ..*old(self) }),
    {
        if let Some((start, end)) = self.watch {
            if ranges_overlap(addr, len, start, end) {
                let ghost before = self.watch_log@;
                self.watch_log.push(WatchHit { addr, val, pc: self.pending_pc });
                if self.watch_log.len() > WATCH_LOG_LIMIT {
                    self.watch_log.truncate(WATCH_LOG_LIMIT);
                }
            }
        }
    }

    /// Read `n` bytes of the DMA framebuffer at `fb_off`, little-endian.
    fn fb_read(&self, fb_off: usize, n: usize) -> (v: u32)
        requires
            1 <= n <= 4,
            fb_off + n <= self.dma_framebuf.len(),
        ensures
            v == le_value(self.dma_framebuf@, fb_off as int, n as int),
        decreases n,
    {
        let b = self.dma_framebuf[fb_off] as u32;
        if n == 1 {
            assert(le_value(self.dma_framebuf@, fb_off + 1, 0) == 0);
            return b;
        }
        let rest = self.fb_read(fb_off + 1, n - 1);
        assert(le_value(self.dma_framebuf@, fb_off + 1, n - 1) < 0x100_0000) by {
            lemma_le_value_bound(self.dma_framebuf@, fb_off + 1, n - 1);
        }
        b + 256 * rest
    }

    /// Store the `n` little-endian bytes of `v` at `fb_off`.
    fn fb_write(&mut self, fb_off: usize, v: u32, n: usize)
        requires
            1 <= n <= 4,
            fb_off + n <= old(self).dma_framebuf.len(),
        ensures
            final(self).dma_framebuf@ == store_le(old(self).dma_framebuf@, fb_off as int, v as int, n as int),
            final(self).dma_framebuf@.len() == old(self).dma_framebuf@.len(),
            *final(self) == (EappBus { dma_framebuf: final(self).dma_framebuf, ..*old(self) }),
        decreases n,
    {
        let ghost s0 = self.dma_framebuf@;
        self.dma_framebuf.set(fb_off, (v % 256) as u8);
        let ghost s1 = self.dma_framebuf@;
        assert(s1 == s0.update(fb_off as int, (v % 256) as u8));
        if n > 1 {
            self.fb_write(fb_off + 1, v / 256, n - 1);
        } else {
            assert(store_le(s1, fb_off + 1, (v / 256) as int, 0) == s1);
        }
    }

    /// Read `n` (1, 2 or 4) bytes. Stub-window control registers read 1;
    /// the DMA framebuffer reads back its bytes (0 past its end).
    pub fn read(&self, offset: u32, n: usize) -> (r: BusRead)
        requires
            n == 1 || n == 2 || n == 4,
            self.dma_framebuf@.len() == DMA_FB_SIZE,
        ensures
            r == match target_of(offset, self.image_len) {
                BusTarget::Image(o) => BusRead::Image(o),
                BusTarget::WorkRam(o) => BusRead::WorkRam(o),
                BusTarget::HwStub(rel) => if rel < DMA_FB_OFFSET {
                    BusRead::Value(1)
                } else if (rel - DMA_FB_OFFSET) + n <= DMA_FB_SIZE {
                    BusRead::Value(le_value(self.dma_framebuf@, rel - DMA_FB_OFFSET, n as int) as u32)
                } else {
                    BusRead::Value(0)
                },
                BusTarget::Unmapped => BusRead::Unexpected,
            },
    {
        match bus_target(offset, self.image_len) {
            BusTarget::Image(o) => BusRead::Image(o),
            BusTarget::WorkRam(o) => BusRead::WorkRam(o),
            BusTarget::HwStub(rel) => {
                if rel < DMA_FB_OFFSET {
                    BusRead::Value(1)
                } else {
                    let fb_off = (rel - DMA_FB_OFFSET) as usize;
                    if fb_off + n <= DMA_FB_SIZE {
                        BusRead::Value(self.fb_read(fb_off, n))
                    } else {
                        BusRead::Value(0)
                    }
                }
            },
            BusTarget::Unmapped => BusRead::Unexpected,
        }
    }

    /// Write `n` (1, 2 or 4) bytes of `val`, recording watched writes.
    /// Framebuffer writes mark it dirty; 32-bit ones also count, widen the
    /// written range, and a rewrite of pixel 0 after other writes starts a
    /// new DMA frame.
    pub fn write(&mut self, offset: u32, val: u32, n: usize) -> (r: BusWrite)
        requires
            n == 1 || n == 2 || n == 4,
            n == 1 ==> val < 0x100,
            n == 2 ==> val < 0x10000,
            old(self).dma_framebuf@.len() == DMA_FB_SIZE,
            old(self).hw_fb_write_count < usize::MAX,
            old(self).hw_dma_frame < usize::MAX,
        ensures
            final(self).watch_log@ == match old(self).watch {
                Some((start, end)) => if offset < end && start < (if offset + n > u32::MAX { u32::MAX as int } else { offset + n }) {
                    logged(old(self).watch_log@, WatchHit { addr: offset, val, pc: old(self).pending_pc })
                } else {
                    old(self).watch_log@
                },
                None => old(self).watch_log@,
            },
            final(self).dma_framebuf@.len() == DMA_FB_SIZE,
            ({
                let t = target_of(offset, old(self).image_len);
                let in_fb = t matches BusTarget::HwStub(rel) && rel >= DMA_FB_OFFSET
                    && (rel - DMA_FB_OFFSET) + n <= DMA_FB_SIZE;
                let fb_off = match t { BusTarget::HwStub(rel) => rel - DMA_FB_OFFSET, _ => 0 };
                &&& r == match t {
                    BusTarget::Image(o) => BusWrite::Image(o),
                    BusTarget::WorkRam(o) => BusWrite::WorkRam(o),
                    BusTarget::HwStub(_) => BusWrite::Done,
                    BusTarget::Unmapped => BusWrite::Unexpected,
                }
                &&& in_fb ==> final(self).dma_framebuf@ == store_le(old(self).dma_framebuf@, fb_off, val as int, n as int)
                    && final(self).hw_dma_dirty
                &&& !in_fb ==> final(self).dma_framebuf@ == old(self).dma_framebuf@
                    && final(self).hw_dma_dirty == old(self).hw_dma_dirty
                &&& (in_fb && n == 4) ==> {
                    &&& final(self).hw_fb_write_count == old(self).hw_fb_write_count + 1
                    &&& final(self).hw_fb_write_min == if fb_off < old(self).hw_fb_write_min { fb_off as u32 } else { old(self).hw_fb_write_min }
                    &&& final(self).hw_fb_write_max == if fb_off + 4 > old(self).hw_fb_write_max { (fb_off + 4) as u32 } else { old(self).hw_fb_write_max }
                    &&& final(self).hw_dma_frame == if fb_off == 0 && old(self).hw_fb_write_count + 1 > 1 {
                        old(self).hw_dma_frame + 1
                    } else {
                        old(self).hw_dma_frame as int
                    }
                }
                &&& !(in_fb && n == 4) ==> {
                    &&& final(self).hw_fb_write_count == old(self).hw_fb_write_count
                    &&& final(self).hw_fb_write_min == old(self).hw_fb_write_min
                    &&& final(self).hw_fb_write_max == old(self).hw_fb_write_max
                    &&& final(self).hw_dma_frame == old(self).hw_dma_frame
                }
            }),
            final(self).image_len == old(self).image_len,
            final(self).watch == old(self).watch,
            final(self).pending_pc == old(self).pending_pc,
    {
        self.note_watch(offset, n as u32, val);
        match bus_target(offset, self.image_len) {
            BusTarget::Image(o) => BusWrite::Image(o),
            BusTarget::WorkRam(o) => BusWrite::WorkRam(o),
            BusTarget::HwStub(rel) => {
                if rel >= DMA_FB_OFFSET {
                    let fb_off = (rel - DMA_FB_OFFSET) as usize;
                    if fb_off + n <= DMA_FB_SIZE {
                        self.fb_write(fb_off, val, n);
                        if n == 4 {
                            self.hw_fb_write_count += 1;
                        }
                        self.hw_dma_dirty = true;
                        if n == 4 {
                            let off = fb_off as u32;
                            if off < self.hw_fb_write_min {
                                self.hw_fb_write_min = off;
                            }
                            if off + 4 > self.hw_fb_write_max {
                                self.hw_fb_write_max = off + 4;
                            }
                            if off == 0 && self.hw_fb_write_count > 1 {
                                self.hw_dma_frame += 1;
                            }
                        }
                    }
                }
                BusWrite::Done
            },
            BusTarget::Unmapped => BusWrite::Unexpected,
        }
    }
}

impl EappBus {
    /// Whether the DMA framebuffer has been written up to its last 256
    /// bytes, i.e. a whole frame is there to present.
    pub fn dma_fully_written(&self) -> (b: bool)
        ensures
            b == (self.hw_fb_write_max >= DMA_FB_SIZE - 256),
    {
        self.hw_fb_write_max as usize >= DMA_FB_SIZE - 256
    }

    /// The span of framebuffer bytes written by 32-bit writes and the
    /// percentage of the framebuffer it covers; `None` before any.
    pub fn dma_coverage(&self) -> (r: Option<(u32, usize)>)
        requires
            self.hw_fb_write_count == 0 || self.hw_fb_write_min <= self.hw_fb_write_max,
        ensures
            self.hw_fb_write_count == 0 ==> r is None,
            self.hw_fb_write_count > 0 ==> r == Some((
                (self.hw_fb_write_max - self.hw_fb_write_min) as u32,
                ((self.hw_fb_write_max - self.hw_fb_write_min) * 100 / DMA_FB_SIZE as int) as usize,
            )),
    {
        if self.hw_fb_write_count == 0 {
            return None;
        }
        let range = self.hw_fb_write_max - self.hw_fb_write_min;
        let pct = (range as u64 * 100 / DMA_FB_SIZE as u64) as usize;
        Some((range, pct))
    }

    /// Hand out the logged watchpoint hits, leaving the log empty.
    pub fn take_watch_log(&mut self) -> (hits: Vec<WatchHit>)
        ensures
            hits@ == old(self).watch_log@,
            final(self).watch_log@.len() == 0,
            *final(self) == (EappBus { watch_log: final(self).watch_log, ..*old(self) }),
    {
        let mut hits: Vec<WatchHit> = Vec::new();
        std::mem::swap(&mut hits, &mut self.watch_log);
        hits
    }
}

/// Whether a DMA framebuffer snapshot holds anything but the fill byte
/// 0x2d.
pub fn dma_has_content(data: &[u8]) -> (b: bool)
    ensures
        b == exists|i: int| 0 <= i < data@.len() && data@[i] != 0x2d,
{
    let mut i: usize = 0;
    while i < data.len()
        invariant
            i <= data@.len(),
            forall|k: int| 0 <= k < i ==> data@[k] == 0x2d,
        decreases data@.len() - i,
    {
        if data[i] != 0x2d {
            return true;
        }
        i += 1;
    }
    false
}

/// The printable ASCII character of a watched value's low byte, if any.
pub fn watch_value_char(val: u32) -> (c: Option<char>)
    ensures
        c == if 0x20 <= val % 256 <= 0x7e { Some(((val % 256) as u8) as char) } else { None::<char> },
{
    let lo = (val % 256) as u8;
    if 0x20 <= lo && lo <= 0x7e { Some(lo as char) } else { None }
}

/// `s` with every leading copy of `p` removed, as
/// `str::trim_start_matches` does.
pub open spec fn strip_prefixes(s: Seq<char>, p: Seq<char>) -> Seq<char>
    decreases s.len(),
{
    if p.len() > 0 && s.len() >= p.len() && s.take(p.len() as int) == p {
        strip_prefixes(s.skip(p.len() as int), p)
    } else {
        s
    }
}

/// A watch number: trimmed, leading `0x` then `0X` prefixes dropped, read
/// as hexadecimal, or failing that as decimal; at most `u32::MAX`.
pub open spec fn watch_number(s: Seq<char>) -> Option<nat> {
    let t = strip_prefixes(strip_prefixes(trim(s), "0x"@), "0X"@);
    match parse_uint(t, 16, 0xffff_ffff) {
        Some(v) => Some(v),
        None => parse_uint(t, 10, 0xffff_ffff),
    }
}

/// The watch range of `addr,len` (start, end exclusive, wrapping): the
/// length defaults to 0x20 when absent or unreadable.
pub open spec fn watch_range(raw: Seq<char>) -> Option<(u32, u32)> {
    let first = match find_char(raw, ',') { Some(i) => raw.take(i), None => raw };
    let len: nat = match find_char(raw, ',') {
        None => 0x20,
        Some(i) => {
            let rest = raw.skip(i + 1);
            let second = match find_char(rest, ',') { Some(j) => rest.take(j), None => rest };
            match watch_number(second) { Some(v) => v, None => 0x20 }
        },
    };
    match watch_number(first) {
        None => None,
        Some(a) => Some((a as u32, ((a + len) % 0x1_0000_0000) as u32)),
    }
}

/// Drop leading copies of `x`,`y` from `cs[i..j]`.
fn strip_pair(cs: &[char], i: usize, j: usize, x: char, y: char) -> (k: usize)
    requires
        i <= j <= cs@.len(),
    ensures
        i <= k <= j,
        cs@.subrange(k as int, j as int) == strip_prefixes(cs@.subrange(i as int, j as int), seq![x, y]),
{
    let mut k = i;
    while j - k >= 2 && cs[k] == x && cs[k + 1] == y
        invariant
            i <= k <= j <= cs@.len(),
            strip_prefixes(cs@.subrange(i as int, j as int), seq![x, y])
                == strip_prefixes(cs@.subrange(k as int, j as int), seq![x, y]),
        decreases j - k,
    {
        proof {
            let s = cs@.subrange(k as int, j as int);
            assert(s.take(2) =~= seq![x, y]);
            assert(s.skip(2) =~= cs@.subrange(k + 2, j as int));
        }
        k += 2;
    }
    proof {
        let s = cs@.subrange(k as int, j as int);
        if s.len() >= 2 && s.take(2) == seq![x, y] {
            assert(s[0] == x && s[1] == y);
        }
    }
    k
}

/// Read `cs[a..b]` as a watch number.
fn watch_number_in(cs: &[char], a: usize, b: usize) -> (r: Option<u32>)
    requires
        a <= b <= cs@.len(),
    ensures
        r matches Some(v) ==> watch_number(cs@.subrange(a as int, b as int)) == Some(v as nat),
        r is None ==> watch_number(cs@.subrange(a as int, b as int)) is None,
{
    let (i, j) = trim_bounds(cs, a, b);
    let k1 = strip_pair(cs, i, j, '0', 'x');
    let k2 = strip_pair(cs, k1, j, '0', 'X');
    proof {
        reveal_strlit("0x");
        reveal_strlit("0X");
        assert("0x"@ =~= seq!['0', 'x']);
        assert("0X"@ =~= seq!['0', 'X']);
    }
    match parse_uint_range(cs, k2, j, 16, 0xffff_ffff) {
        Some(v) => Some(v as u32),
        None => match parse_uint_range(cs, k2, j, 10, 0xffff_ffff) {
            Some(v) => Some(v as u32),
            None => None,
        },
    }
}

/// Parse a watch range setting `addr,len` (see `watch_range`).
pub fn parse_watch_range(raw: &str) -> (r: Option<(u32, u32)>)
    ensures
        r == watch_range(raw@),
{
    let cs = chars_of(raw);
    let n = cs.len();
    let ghost s = raw@;
    assert(cs@.subrange(0, n as int) =~= s);
    let comma = find_char_in(cs.as_slice(), 0, n, ',');
    let first_end = match comma { Some(i) => i, None => n };
    proof {
        if let Some(i) = comma {
            assert(s.take(i as int) =~= cs@.subrange(0, i as int));
        }
    }
    let addr = match watch_number_in(cs.as_slice(), 0, first_end) {
        Some(a) => a,
        None => return None,
    };
    let len: u32 = match comma {
        None => 0x20,
        Some(i) => {
            let second = find_char_in(cs.as_slice(), i + 1, n, ',');
            let end = match second { Some(j) => j, None => n };
            proof {
                let rest = s.skip(i + 1);
                assert(rest =~= cs@.subrange(i + 1, n as int));
                if let Some(j) = second {
                    assert(rest.take(j - (i + 1)) =~= cs@.subrange(i + 1, j as int));
                }
            }
            match watch_number_in(cs.as_slice(), i + 1, end) {
                Some(v) => v,
                None => 0x20,
            }
        },
    };
    assert(addr.wrapping_add(len) == ((addr + len) % 0x1_0000_0000) as u32) by (bit_vector);
    Some((addr, addr.wrapping_add(len)))
}

/// `256^n`.
pub open spec fn byte_range(n: int) -> int
    decreases n,
{
    if n <= 0 { 1 } else { 256 * byte_range(n - 1) }
}

/// Reading back `n` bytes stored at `o` gives the stored value, when it
/// fits in `n` bytes; the bytes around are untouched.
pub proof fn lemma_read_after_store(s: Seq<u8>, o: int, v: int, n: int)
    requires
        0 <= n,
        0 <= o,
        o + n <= s.len(),
        0 <= v < byte_range(n),
    ensures
        le_value(store_le(s, o, v, n), o, n) == v,
        store_le(s, o, v, n).len() == s.len(),
        forall|k: int| 0 <= k < s.len() && !(o <= k < o + n) ==> #[trigger] store_le(s, o, v, n)[k] == s[k],
    decreases n,
{
    if n > 0 {
        let s1 = s.update(o, (v % 256) as u8);
        assert(v / 256 < byte_range(n - 1)) by {
            vstd::arithmetic::div_mod::lemma_div_is_ordered(v, byte_range(n) - 1, 256);
            vstd::arithmetic::div_mod::lemma_fundamental_div_mod(v, 256);
            assert((256 * byte_range(n - 1) - 1) / 256 == byte_range(n - 1) - 1) by {
                vstd::arithmetic::div_mod::lemma_div_multiples_vanish_fancy(byte_range(n - 1) - 1, 255, 256);
            }
            assert(256 * byte_range(n - 1) - 1 == 256 * (byte_range(n - 1) - 1) + 255);
        }
        lemma_read_after_store(s1, o + 1, v / 256, n - 1);
        let t = store_le(s1, o + 1, v / 256, n - 1);
        assert(t[o] == (v % 256) as u8);
        assert(le_value(t, o, n) == t[o] + 256 * le_value(t, o + 1, n - 1));
        assert(v == 256 * (v / 256) + v % 256) by {
            vstd::arithmetic::div_mod::lemma_fundamental_div_mod(v, 256);
        }
    }
}

/// A little-endian value of `n <= 3` bytes is below `256^n`.
proof fn lemma_le_value_bound(s: Seq<u8>, o: int, n: int)
    requires
        0 <= n <= 3,
    ensures
        0 <= le_value(s, o, n) < 0x100_0000,
        n <= 2 ==> le_value(s, o, n) < 0x1_0000,
        n <= 1 ==> le_value(s, o, n) < 0x100,
    decreases n,
{
    if n > 0 {
        lemma_le_value_bound(s, o + 1, n - 1);
    }
}

} // verus!
