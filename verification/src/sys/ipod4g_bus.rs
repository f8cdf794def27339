//! The iPod 4G's physical memory map: which device a physical address
//! reaches and at what offset, the exception-vector remap, and the MMU
//! permission check in front of every access.
use vstd::prelude::*;

verus! {

/// The devices on the iPod 4G bus.
#[derive(Debug, Clone, Copy, PartialEq, Eq, Structural)]
pub enum Ipod4gDevice {
    Sdram,
    Fastram,
    Flash,
    CpuId,
    Mailbox,
    IntCon,
    Timer1,
    Timer2,
    UsecTimer,
    DevCon,
    CpuCon,
    DmaCon,
    CacheCon,
    GpioAbcd,
    GpioEfgh,
    GpioIjkl,
    GpioMirrorAbcd,
    GpioMirrorEfgh,
    GpioMirrorIjkl,
    PpCon,
    Hd66753,
    Serial0,
    Serial1,
    PwmCon,
    I2CCon,
    Opto,
    I2S,
    EideCon,
    MemCon,
    Evp,
    MysteryIrqCon,
    TotalMystery,
    MysteryFlashStub,
    Firewire,
    Pp5002SerialStub,
}

/// The windows of the map, first match wins: (first address, last
/// address, device). RAM comes first.
pub open spec fn ipod4g_mmap() -> Seq<(u32, u32, Ipod4gDevice)> {
    seq![
        (0x1000_0000u32, 0x11ff_ffffu32, Ipod4gDevice::Sdram),
        (0x4000_0000, 0x4001_7fff, Ipod4gDevice::Fastram),
        (0x0000_0000, 0x000f_ffff, Ipod4gDevice::Flash),
        (0x6000_0000, 0x6000_0fff, Ipod4gDevice::CpuId),
        (0x6000_1000, 0x6000_102f, Ipod4gDevice::Mailbox),
        (0x6000_4000, 0x6000_41ff, Ipod4gDevice::IntCon),
        (0x6000_5000, 0x6000_5007, Ipod4gDevice::Timer1),
        (0x6000_5008, 0x6000_500f, Ipod4gDevice::Timer2),
        (0x6000_5010, 0x6000_5013, Ipod4gDevice::UsecTimer),
        (0x6000_6000, 0x6000_6fff, Ipod4gDevice::DevCon),
        (0x6000_7000, 0x6000_7fff, Ipod4gDevice::CpuCon),
        (0x6000_a000, 0x6000_bfff, Ipod4gDevice::DmaCon),
        (0x6000_c000, 0x6000_cfff, Ipod4gDevice::CacheCon),
        (0x6000_d000, 0x6000_d07f, Ipod4gDevice::GpioAbcd),
        (0x6000_d080, 0x6000_d0ff, Ipod4gDevice::GpioEfgh),
        (0x6000_d100, 0x6000_d17f, Ipod4gDevice::GpioIjkl),
        (0x6000_d800, 0x6000_d87f, Ipod4gDevice::GpioMirrorAbcd),
        (0x6000_d880, 0x6000_d8ff, Ipod4gDevice::GpioMirrorEfgh),
        (0x6000_d900, 0x6000_d97f, Ipod4gDevice::GpioMirrorIjkl),
        (0x6400_4000, 0x6400_41ff, Ipod4gDevice::IntCon),
        (0x7000_0000, 0x7000_1fff, Ipod4gDevice::PpCon),
        (0x7000_3000, 0x7000_301f, Ipod4gDevice::Hd66753),
        (0x7000_6000, 0x7000_6020, Ipod4gDevice::Serial0),
        (0x7000_6040, 0x7000_6060, Ipod4gDevice::Serial1),
        (0x7000_a000, 0x7000_a03f, Ipod4gDevice::PwmCon),
        (0x7000_c000, 0x7000_c0ff, Ipod4gDevice::I2CCon),
        (0x7000_c100, 0x7000_c1ff, Ipod4gDevice::Opto),
        (0x7000_2800, 0x7000_28ff, Ipod4gDevice::I2S),
        (0xc300_0000, 0xc300_0fff, Ipod4gDevice::EideCon),
        (0xf000_0000, 0xf000_ffff, Ipod4gDevice::MemCon),
        (0x6000_f000, 0x6000_f01f, Ipod4gDevice::Evp),
        (0x6000_f100, 0x6000_f11f, Ipod4gDevice::Evp),
        (0x6000_1038, 0x6000_1038, Ipod4gDevice::MysteryIrqCon),
        (0x6000_111c, 0x6000_111c, Ipod4gDevice::MysteryIrqCon),
        (0x6000_1128, 0x6000_1128, Ipod4gDevice::MysteryIrqCon),
        (0x6000_1138, 0x6000_1138, Ipod4gDevice::MysteryIrqCon),
        (0x6000_3000, 0x6000_30ff, Ipod4gDevice::TotalMystery),
        (0x6000_9000, 0x6000_90ff, Ipod4gDevice::TotalMystery),
        (0x7000_3800, 0x7000_3800, Ipod4gDevice::TotalMystery),
        (0xc031_b1d8, 0xc031_b1d8, Ipod4gDevice::MysteryFlashStub),
        (0xc031_b1e8, 0xc031_b1e8, Ipod4gDevice::MysteryFlashStub),
        (0xc600_008c, 0xc600_008c, Ipod4gDevice::Firewire),
        (0xffff_fe00, 0xffff_ffff, Ipod4gDevice::MysteryFlashStub),
        (0xc000_6000, 0xc000_6020, Ipod4gDevice::Pp5002SerialStub),
        (0xc000_6040, 0xc000_6060, Ipod4gDevice::Pp5002SerialStub),
    ]
}

/// The device and offset of `addr` among windows `i..` of `map`.
pub open spec fn route_from(map: Seq<(u32, u32, Ipod4gDevice)>, addr: u32, i: int) -> Option<(Ipod4gDevice, u32)>
    decreases map.len() - i,
{
    if i < 0 || i >= map.len() {
        None
    } else if map[i].0 <= addr <= map[i].1 {
        Some((map[i].2, (addr - map[i].0) as u32))
    } else {
        route_from(map, addr, i + 1)
    }
}

/// The device `addr` reaches on the iPod 4G, and the offset in it.
pub open spec fn phys_route(addr: u32) -> Option<(Ipod4gDevice, u32)> {
    route_from(ipod4g_mmap(), addr, 0)
}

/// The windows as a vector.
fn mmap_table() -> (t: Vec<(u32, u32, Ipod4gDevice)>)
    ensures
        t@ == ipod4g_mmap(),
{
    let t = vec![
        (0x1000_0000u32, 0x11ff_ffffu32, Ipod4gDevice::Sdram),
        (0x4000_0000, 0x4001_7fff, Ipod4gDevice::Fastram),
        (0x0000_0000, 0x000f_ffff, Ipod4gDevice::Flash),
        (0x6000_0000, 0x6000_0fff, Ipod4gDevice::CpuId),
        (0x6000_1000, 0x6000_102f, Ipod4gDevice::Mailbox),
        (0x6000_4000, 0x6000_41ff, Ipod4gDevice::IntCon),
        (0x6000_5000, 0x6000_5007, Ipod4gDevice::Timer1),
        (0x6000_5008, 0x6000_500f, Ipod4gDevice::Timer2),
        (0x6000_5010, 0x6000_5013, Ipod4gDevice::UsecTimer),
        (0x6000_6000, 0x6000_6fff, Ipod4gDevice::DevCon),
        (0x6000_7000, 0x6000_7fff, Ipod4gDevice::CpuCon),
        (0x6000_a000, 0x6000_bfff, Ipod4gDevice::DmaCon),
        (0x6000_c000, 0x6000_cfff, Ipod4gDevice::CacheCon),
        (0x6000_d000, 0x6000_d07f, Ipod4gDevice::GpioAbcd),
        (0x6000_d080, 0x6000_d0ff, Ipod4gDevice::GpioEfgh),
        (0x6000_d100, 0x6000_d17f, Ipod4gDevice::GpioIjkl),
        (0x6000_d800, 0x6000_d87f, Ipod4gDevice::GpioMirrorAbcd),
        (0x6000_d880, 0x6000_d8ff, Ipod4gDevice::GpioMirrorEfgh),
        (0x6000_d900, 0x6000_d97f, Ipod4gDevice::GpioMirrorIjkl),
        (0x6400_4000, 0x6400_41ff, Ipod4gDevice::IntCon),
        (0x7000_0000, 0x7000_1fff, Ipod4gDevice::PpCon),
        (0x7000_3000, 0x7000_301f, Ipod4gDevice::Hd66753),
        (0x7000_6000, 0x7000_6020, Ipod4gDevice::Serial0),
        (0x7000_6040, 0x7000_6060, Ipod4gDevice::Serial1),
        (0x7000_a000, 0x7000_a03f, Ipod4gDevice::PwmCon),
        (0x7000_c000, 0x7000_c0ff, Ipod4gDevice::I2CCon),
        (0x7000_c100, 0x7000_c1ff, Ipod4gDevice::Opto),
        (0x7000_2800, 0x7000_28ff, Ipod4gDevice::I2S),
        (0xc300_0000, 0xc300_0fff, Ipod4gDevice::EideCon),
        (0xf000_0000, 0xf000_ffff, Ipod4gDevice::MemCon),
        (0x6000_f000, 0x6000_f01f, Ipod4gDevice::Evp),
        (0x6000_f100, 0x6000_f11f, Ipod4gDevice::Evp),
        (0x6000_1038, 0x6000_1038, Ipod4gDevice::MysteryIrqCon),
        (0x6000_111c, 0x6000_111c, Ipod4gDevice::MysteryIrqCon),
        (0x6000_1128, 0x6000_1128, Ipod4gDevice::MysteryIrqCon),
        (0x6000_1138, 0x6000_1138, Ipod4gDevice::MysteryIrqCon),
        (0x6000_3000, 0x6000_30ff, Ipod4gDevice::TotalMystery),
        (0x6000_9000, 0x6000_90ff, Ipod4gDevice::TotalMystery),
        (0x7000_3800, 0x7000_3800, Ipod4gDevice::TotalMystery),
        (0xc031_b1d8, 0xc031_b1d8, Ipod4gDevice::MysteryFlashStub),
        (0xc031_b1e8, 0xc031_b1e8, Ipod4gDevice::MysteryFlashStub),
        (0xc600_008c, 0xc600_008c, Ipod4gDevice::Firewire),
        (0xffff_fe00, 0xffff_ffff, Ipod4gDevice::MysteryFlashStub),
        (0xc000_6000, 0xc000_6020, Ipod4gDevice::Pp5002SerialStub),
        (0xc000_6040, 0xc000_6060, Ipod4gDevice::Pp5002SerialStub),
    ];
    assert(t@ =~= ipod4g_mmap());
    t
}

/// The device `addr` reaches, and the offset in it; `None` is unmapped.
pub fn phys_route_of(addr: u32) -> (r: Option<(Ipod4gDevice, u32)>)
    ensures
        r == phys_route(addr),
{
    let t = mmap_table();
    let mut i: usize = 0;
    while i < t.len()
        invariant
            t@ == ipod4g_mmap(),
            i <= t@.len(),
            phys_route(addr) == route_from(t@, addr, i as int),
        decreases t@.len() - i,
    {
        let (start, end, dev) = t[i];
        if start <= addr && addr <= end {
            return Some((dev, addr - start));
        }
        i += 1;
    }
    None
}

/// What a bus access ends in.
#[derive(Debug, Clone, Copy, PartialEq, Eq, Structural)]
pub enum Ipod4gAccess {
    /// The device takes the access at this offset.
    Device(Ipod4gDevice, u32),
    /// The MMU forbids it.
    MmuViolation,
    /// Nothing is mapped there.
    Unexpected,
}

/// The bus of the iPod 4G, as far as routing goes: whether the cache
/// controller maps the exception vectors onto the EVP block.
pub struct Ipod4gBus {
    pub local_evt: bool,
}

impl Ipod4gBus {
    /// The address a data read goes to before translation: with local
    /// exception vectors on, the vector area reads the EVP block.
    pub fn read_address(&self, addr: u32) -> (a: u32)
        ensures
            a == if addr < 0x1f && self.local_evt { addr | 0x6000_f100 } else { addr },
    {
        if addr < 0x1f && self.local_evt { addr | 0x6000_f100 } else { addr }
    }

    /// Whether an instruction fetch at `addr` takes its target from the
    /// EVP block rather than from memory.
    pub fn fetch_through_evp(&self, addr: u32) -> (b: bool)
        ensures
            b == (addr < 0x1f && self.local_evt),
    {
        addr < 0x1f && self.local_evt
    }

    /// An access to translated address `phys` that the MMU `allowed`.
    pub fn access(&self, phys: u32, allowed: bool) -> (r: Ipod4gAccess)
        ensures
            r == if !allowed {
                Ipod4gAccess::MmuViolation
            } else {
                match phys_route(phys) {
                    Some((d, off)) => Ipod4gAccess::Device(d, off),
                    None => Ipod4gAccess::Unexpected,
                }
            },
    {
        if !allowed {
            return Ipod4gAccess::MmuViolation;
        }
        match phys_route_of(phys) {
            Some((d, off)) => Ipod4gAccess::Device(d, off),
            None => Ipod4gAccess::Unexpected,
        }
    }

    /// What a probe of translated address `phys` finds.
    pub fn probe(&self, phys: u32) -> (r: Option<(Ipod4gDevice, u32)>)
        ensures
            r == phys_route(phys),
    {
        phys_route_of(phys)
    }
}

/// Whether windows `i` and `j` of `map` share an address.
pub open spec fn windows_overlap(map: Seq<(u32, u32, Ipod4gDevice)>, i: int, j: int) -> bool {
    map[i].0 <= map[j].1 && map[j].0 <= map[i].1
}

/// The windows of the map in address order, by position.
spec fn mmap_order() -> Seq<int> {
    seq![2, 0, 1, 3, 4, 32, 33, 34, 35, 36, 5, 6, 7, 8, 9, 10, 37, 11, 12, 13, 14, 15, 16, 17, 18, 30, 31, 19, 20, 27, 21, 38, 22, 23, 24, 25, 26, 43, 44, 39, 40, 28, 41, 29, 42]
}

/// Where each window stands in `mmap_order`.
spec fn mmap_rank() -> Seq<int> {
    seq![1, 2, 0, 3, 4, 10, 11, 12, 13, 14, 15, 17, 18, 19, 20, 21, 22, 23, 24, 27, 28, 30, 32, 33, 34, 35, 36, 29, 41, 43, 25, 26, 5, 6, 7, 8, 9, 16, 31, 39, 40, 42, 44, 37, 38]
}

/// From position `k` of `order` on, each window ends before the next
/// begins, and each begins no later than it ends.
spec fn chained(map: Seq<(u32, u32, Ipod4gDevice)>, order: Seq<int>, k: int) -> bool
    decreases order.len() - k,
{
    if k < 0 || k >= order.len() {
        true
    } else {
        &&& 0 <= order[k] < map.len()
        &&& map[order[k]].0 <= map[order[k]].1
        &&& (k + 1 < order.len() ==> map[order[k]].1 < map[order[k + 1]].0)
        &&& chained(map, order, k + 1)
    }
}

/// From window `a` on, `rank` gives each window's position in `order`.
spec fn ranked(order: Seq<int>, rank: Seq<int>, a: int) -> bool
    decreases rank.len() - a,
{
    if a < 0 || a >= rank.len() {
        true
    } else {
        &&& 0 <= rank[a] < order.len()
        &&& order[rank[a]] == a
        &&& ranked(order, rank, a + 1)
    }
}

proof fn lemma_chained_at(map: Seq<(u32, u32, Ipod4gDevice)>, order: Seq<int>, k: int, l: int)
    requires
        0 <= k <= l < order.len(),
        chained(map, order, k),
    ensures
        0 <= order[l] < map.len(),
        map[order[l]].0 <= map[order[l]].1,
        k < l ==> map[order[k]].1 < map[order[l]].0,
    decreases l - k,
{
    if k < l {
        lemma_chained_at(map, order, k + 1, l);
        if k + 1 < l {
            lemma_chained_at(map, order, k + 1, k + 1);
        }
    }
}

proof fn lemma_chained_from(map: Seq<(u32, u32, Ipod4gDevice)>, order: Seq<int>, k: int)
    requires
        0 <= k <= order.len(),
        chained(map, order, 0),
    ensures
        chained(map, order, k),
    decreases k,
{
    if k > 0 {
        lemma_chained_from(map, order, k - 1);
    }
}

proof fn lemma_ranked_at(order: Seq<int>, rank: Seq<int>, a: int, b: int)
    requires
        0 <= a <= b < rank.len(),
        ranked(order, rank, a),
    ensures
        0 <= rank[b] < order.len(),
        order[rank[b]] == b,
    decreases b - a,
{
    if a < b {
        lemma_ranked_at(order, rank, a + 1, b);
    }
}

/// No two windows of the map overlap, so an address reaches at most one
/// device and the order of the windows does not decide where it goes.
pub proof fn lemma_mmap_windows_disjoint(a: int, b: int)
    requires
        0 <= a < b < ipod4g_mmap().len(),
    ensures
        !windows_overlap(ipod4g_mmap(), a, b),
{
    let map = ipod4g_mmap();
    let order = mmap_order();
    let rank = mmap_rank();
    assert(chained(map, order, 0)) by {
        reveal_with_fuel(chained, 46);
    }
    assert(ranked(order, rank, 0)) by {
        reveal_with_fuel(ranked, 46);
    }
    lemma_ranked_at(order, rank, 0, a);
    lemma_ranked_at(order, rank, 0, b);
    let ka = rank[a];
    let kb = rank[b];
    if ka < kb {
        lemma_chained_from(map, order, ka);
        lemma_chained_at(map, order, ka, kb);
    } else {
        lemma_chained_from(map, order, kb);
        lemma_chained_at(map, order, kb, ka);
    }
}

} // verus!
