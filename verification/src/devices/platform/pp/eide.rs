//! The PP5020 EIDE controller's own registers: drive timings, the
//! configuration word with its interrupt latch, and the DMA engine. Task-file
//! registers belong to the attached IDE device; accesses to them are handed
//! back to the caller.
use vstd::prelude::*;

verus! {

/// Timing and configuration words of one IDE channel.
#[derive(Debug, Clone, Copy)]
pub struct IdeDriveCfg {
    pub primary_timing: [u32; 2],
    pub secondary_timing: [u32; 2],
    /// Bit 4: interrupt status, bit 5: interrupt enable, bit 15: DMA
    /// start, bits 28/29: CPU speed, bit 31: device reset.
    pub config: u32,
}

/// A task-file register of the attached IDE device.
#[derive(Debug, Clone, Copy, PartialEq, Eq, Structural)]
pub enum IdeReg {
    Data,
    Error,
    Features,
    SectorCount,
    SectorNo,
    CylinderLo,
    CylinderHi,
    DeviceHead,
    Status,
    Command,
    AltStatus,
    DevControl,
    DataLatch,
}

/// How loudly a stubbed register access is reported.
#[derive(Debug, Clone, Copy, PartialEq, Eq, Structural)]
pub enum LogLevel {
    Debug,
    Info,
    Error,
}

/// The direction of a DMA step.
#[derive(Debug, Clone, Copy, PartialEq, Eq, Structural)]
pub enum MemAccessKind {
    Read,
    Write,
}

/// No DMA transfer is pending.
pub struct DmaErr;

/// The outcome of a register read.
#[derive(Debug, Clone, Copy, PartialEq, Eq, Structural)]
pub enum EideRead {
    Value(u32),
    /// A register kept but not emulated: its value, reported at a level.
    StubRead(LogLevel, u32),
    Unimplemented,
    Unexpected,
    /// Read an 8-bit task-file register of the device.
    Ide8(IdeReg),
    /// Read the 16-bit data register of the device.
    Ide16(IdeReg),
}

/// The outcome of a register write.
#[derive(Debug, Clone, Copy, PartialEq, Eq, Structural)]
pub enum EideWrite {
    Done,
    /// A register kept but not emulated, reported at a level.
    StubWrite(LogLevel),
    Unimplemented,
    Unexpected,
    /// Write an 8-bit task-file register of the device.
    Ide8(IdeReg, u8),
    /// Write the 16-bit data register of the device.
    Ide16(IdeReg, u16),
}

/// The EIDE controller registers.
pub struct EIDECon {
    pub ide0_cfg: IdeDriveCfg,
    pub ide1_cfg: IdeDriveCfg,
    /// Level driven on the controller's interrupt line.
    pub ide_irq_line: bool,
    pub ide_irq_latched: bool,
    pub ide_irq_was_asserted: bool,
    /// Bit 3: transfer direction (1 = read).
    pub dma_control: u32,
    pub dma_length: u32,
    pub dma_addr: u32,
    pub unknown: u32,
}

/// Bit `n` of `v`.
pub open spec fn bit(v: u32, n: u32) -> bool {
    (v >> n) & 1 == 1
}

/// `v` with bits 3 and 4 set to `on`.
pub open spec fn with_irq_bits(v: u32, on: bool) -> u32 {
    if on { v | 0x18 } else { v & !0x18u32 }
}

/// The register name at `offset`, if the controller maps one there.
pub open spec fn register_name(offset: u32) -> Option<Seq<char>> {
    if offset == 0x000 { Some("IDE0 Primary Timing 0"@) }
    else if offset == 0x004 { Some("IDE0 Primary Timing 1"@) }
    else if offset == 0x008 { Some("IDE0 Secondary Timing 0"@) }
    else if offset == 0x00c { Some("IDE0 Secondary Timing 1"@) }
    else if offset == 0x010 { Some("IDE1 Primary Timing 0"@) }
    else if offset == 0x014 { Some("IDE1 Primary Timing 1"@) }
    else if offset == 0x018 { Some("IDE1 Secondary Timing 0"@) }
    else if offset == 0x01c { Some("IDE1 Secondary Timing 1"@) }
    else if offset == 0x028 { Some("IDE0 Cfg"@) }
    else if offset == 0x02c { Some("IDE1 Cfg"@) }
    else if offset == 0x1e0 { Some("Data"@) }
    else if offset == 0x1e4 { Some("Error/Features"@) }
    else if offset == 0x1e8 { Some("Sector Count"@) }
    else if offset == 0x1ec { Some("Sector Number"@) }
    else if offset == 0x1f0 { Some("Cylinder Low"@) }
    else if offset == 0x1f4 { Some("Cylinder High"@) }
    else if offset == 0x1f8 { Some("Device Head"@) }
    else if offset == 0x1fc { Some("Status/Command"@) }
    else if offset == 0x3f8 { Some("AltStatus/DeviceControl"@) }
    else if offset == 0x3fc { Some("Data Latch"@) }
    else if offset == 0x400 { Some("DMA Control"@) }
    else if offset == 0x408 { Some("DMA Length"@) }
    else if offset == 0x40c { Some("DMA Addr"@) }
    else if offset == 0x410 { Some("?"@) }
    else { None }
}

/// The task-file register read at `offset`, with its width.
pub open spec fn ide_read_reg(offset: u32) -> Option<EideRead> {
    if offset == 0x1e0 { Some(EideRead::Ide16(IdeReg::Data)) }
    else if offset == 0x1e4 { Some(EideRead::Ide8(IdeReg::Error)) }
    else if offset == 0x1e8 { Some(EideRead::Ide8(IdeReg::SectorCount)) }
    else if offset == 0x1ec { Some(EideRead::Ide8(IdeReg::SectorNo)) }
    else if offset == 0x1f0 { Some(EideRead::Ide8(IdeReg::CylinderLo)) }
    else if offset == 0x1f4 { Some(EideRead::Ide8(IdeReg::CylinderHi)) }
    else if offset == 0x1f8 { Some(EideRead::Ide8(IdeReg::DeviceHead)) }
    else if offset == 0x1fc { Some(EideRead::Ide8(IdeReg::Status)) }
    else if offset == 0x3f8 { Some(EideRead::Ide8(IdeReg::AltStatus)) }
    else if offset == 0x3fc { Some(EideRead::Ide8(IdeReg::DataLatch)) }
    else { None }
}

/// The task-file register written at `offset` with `val`, truncated to the
/// register's width.
pub open spec fn ide_write_reg(offset: u32, val: u32) -> Option<EideWrite> {
    if offset == 0x1e0 { Some(EideWrite::Ide16(IdeReg::Data, val as u16)) }
    else if offset == 0x1e4 { Some(EideWrite::Ide8(IdeReg::Features, val as u8)) }
    else if offset == 0x1e8 { Some(EideWrite::Ide8(IdeReg::SectorCount, val as u8)) }
    else if offset == 0x1ec { Some(EideWrite::Ide8(IdeReg::SectorNo, val as u8)) }
    else if offset == 0x1f0 { Some(EideWrite::Ide8(IdeReg::CylinderLo, val as u8)) }
    else if offset == 0x1f4 { Some(EideWrite::Ide8(IdeReg::CylinderHi, val as u8)) }
    else if offset == 0x1f8 { Some(EideWrite::Ide8(IdeReg::DeviceHead, val as u8)) }
    else if offset == 0x1fc { Some(EideWrite::Ide8(IdeReg::Command, val as u8)) }
    else if offset == 0x3f8 { Some(EideWrite::Ide8(IdeReg::DevControl, val as u8)) }
    else if offset == 0x3fc { Some(EideWrite::Ide8(IdeReg::DataLatch, val as u8)) }
    else { None }
}

fn zero_cfg() -> (c: IdeDriveCfg)
    ensures
        c.primary_timing@ == seq![0u32, 0u32],
        c.secondary_timing@ == seq![0u32, 0u32],
        c.config == 0,
{
    let c = IdeDriveCfg { primary_timing: [0, 0], secondary_timing: [0, 0], config: 0 };
    assert(c.primary_timing@ =~= seq![0u32, 0u32]);
    assert(c.secondary_timing@ =~= seq![0u32, 0u32]);
    c
}

impl EIDECon {
    /// A controller with all registers zero and its interrupt line clear.
    pub fn new() -> (c: EIDECon)
        ensures
            c.ide0_cfg.primary_timing@ == seq![0u32, 0u32] && c.ide0_cfg.secondary_timing@ == seq![0u32, 0u32],
            c.ide1_cfg.primary_timing@ == seq![0u32, 0u32] && c.ide1_cfg.secondary_timing@ == seq![0u32, 0u32],
            c.ide0_cfg.config == 0 && c.ide1_cfg.config == 0,
            !c.ide_irq_line && !c.ide_irq_latched && !c.ide_irq_was_asserted,
            c.dma_control == 0 && c.dma_length == 0 && c.dma_addr == 0 && c.unknown == 0,
    {
        EIDECon {
            ide0_cfg: zero_cfg(),
            ide1_cfg: zero_cfg(),
            ide_irq_line: false,
            ide_irq_latched: false,
            ide_irq_was_asserted: false,
            dma_control: 0,
            dma_length: 0,
            dma_addr: 0,
            unknown: 0,
        }
    }

    /// Sample the device's interrupt request: a rising edge sets the latch,
    /// and the controller's line follows the latch.
    pub fn update_irq_latch(&mut self, asserted: bool)
        ensures
            final(self).ide_irq_latched == (old(self).ide_irq_latched || (asserted && !old(self).ide_irq_was_asserted)),
            final(self).ide_irq_was_asserted == asserted,
            final(self).ide_irq_line == final(self).ide_irq_latched,
            final(self).dma_control == old(self).dma_control,
            final(self).dma_length == old(self).dma_length,
            final(self).dma_addr == old(self).dma_addr,
            final(self).ide0_cfg == old(self).ide0_cfg,
            final(self).ide1_cfg == old(self).ide1_cfg,
            final(self).unknown == old(self).unknown,
    {
        if asserted && !self.ide_irq_was_asserted {
            self.ide_irq_latched = true;
        }
        self.ide_irq_was_asserted = asserted;
        self.ide_irq_line = self.ide_irq_latched;
    }

    /// One 16-bit DMA step: the direction (bit 3 of the control word) and
    /// the current address, after which the address advances by 2 and the
    /// length shrinks by 2. With no length left there is nothing to do.
    pub fn do_dma(&mut self) -> (r: Result<(MemAccessKind, u32), DmaErr>)
        requires
            old(self).dma_length != 0 ==> old(self).dma_length >= 2 && old(self).dma_addr <= u32::MAX - 2,
        ensures
            old(self).dma_length == 0 ==> r is Err && *final(self) == *old(self),
            old(self).dma_length != 0 ==> {
                &&& r matches Ok((kind, addr)) && addr == old(self).dma_addr
                    && kind == (if bit(old(self).dma_control, 3) { MemAccessKind::Read } else { MemAccessKind::Write })
                &&& *final(self) == (EIDECon {
                    dma_addr: (old(self).dma_addr + 2) as u32,
                    dma_length: (old(self).dma_length - 2) as u32,
                    ..*old(self)
                })
            },
    {
        if self.dma_length == 0 {
            return Err(DmaErr);
        }
        let kind = if (self.dma_control >> 3) & 1 == 1 { MemAccessKind::Read } else { MemAccessKind::Write };
        let op = (kind, self.dma_addr);
        self.dma_addr += 2;
        self.dma_length -= 2;
        Ok(op)
    }

    /// The name of the register at `offset`, or `None` when unmapped.
    pub fn probe(&self, offset: u32) -> (r: Option<&'static str>)
        ensures
            match register_name(offset) {
                Some(n) => r matches Some(s) && s@ == n,
                None => r is None,
            },
    {
        proof {
            reveal_strlit("IDE0 Primary Timing 0");
            reveal_strlit("IDE0 Primary Timing 1");
            reveal_strlit("IDE0 Secondary Timing 0");
            reveal_strlit("IDE0 Secondary Timing 1");
            reveal_strlit("IDE1 Primary Timing 0");
            reveal_strlit("IDE1 Primary Timing 1");
            reveal_strlit("IDE1 Secondary Timing 0");
            reveal_strlit("IDE1 Secondary Timing 1");
            reveal_strlit("IDE0 Cfg");
            reveal_strlit("IDE1 Cfg");
            reveal_strlit("Data");
            reveal_strlit("Error/Features");
            reveal_strlit("Sector Count");
            reveal_strlit("Sector Number");
            reveal_strlit("Cylinder Low");
            reveal_strlit("Cylinder High");
            reveal_strlit("Device Head");
            reveal_strlit("Status/Command");
            reveal_strlit("AltStatus/DeviceControl");
            reveal_strlit("Data Latch");
            reveal_strlit("DMA Control");
            reveal_strlit("DMA Length");
            reveal_strlit("DMA Addr");
            reveal_strlit("?");
        }
        match offset {
            0x000 => Some("IDE0 Primary Timing 0"),
            0x004 => Some("IDE0 Primary Timing 1"),
            0x008 => Some("IDE0 Secondary Timing 0"),
            0x00c => Some("IDE0 Secondary Timing 1"),
            0x010 => Some("IDE1 Primary Timing 0"),
            0x014 => Some("IDE1 Primary Timing 1"),
            0x018 => Some("IDE1 Secondary Timing 0"),
            0x01c => Some("IDE1 Secondary Timing 1"),
            0x028 => Some("IDE0 Cfg"),
            0x02c => Some("IDE1 Cfg"),
            0x1e0 => Some("Data"),
            0x1e4 => Some("Error/Features"),
            0x1e8 => Some("Sector Count"),
            0x1ec => Some("Sector Number"),
            0x1f0 => Some("Cylinder Low"),
            0x1f4 => Some("Cylinder High"),
            0x1f8 => Some("Device Head"),
            0x1fc => Some("Status/Command"),
            0x3f8 => Some("AltStatus/DeviceControl"),
            0x3fc => Some("Data Latch"),
            0x400 => Some("DMA Control"),
            0x408 => Some("DMA Length"),
            0x40c => Some("DMA Addr"),
            0x410 => Some("?"),
            _ => None,
        }
    }

    /// Read a 32-bit register. Timings read back; the IDE0 configuration
    /// word has its interrupt bits 3 and 4 refreshed from the latch; DMA
    /// registers and the IDE1 configuration are stubs; task-file registers
    /// go to the device.
    pub fn r32(&mut self, offset: u32) -> (r: EideRead)
        ensures
            offset == 0x000 ==> r == EideRead::Value(old(self).ide0_cfg.primary_timing@[0]),
            offset == 0x004 ==> r == EideRead::Value(old(self).ide0_cfg.primary_timing@[1]),
            offset == 0x008 ==> r == EideRead::Value(old(self).ide0_cfg.secondary_timing@[0]),
            offset == 0x00c ==> r == EideRead::Value(old(self).ide0_cfg.secondary_timing@[1]),
            offset == 0x010 ==> r == EideRead::Value(old(self).ide1_cfg.primary_timing@[0]),
            offset == 0x014 ==> r == EideRead::Value(old(self).ide1_cfg.primary_timing@[1]),
            offset == 0x018 ==> r == EideRead::Value(old(self).ide1_cfg.secondary_timing@[0]),
            offset == 0x01c ==> r == EideRead::Value(old(self).ide1_cfg.secondary_timing@[1]),
            offset == 0x028 ==> {
                let v = with_irq_bits(old(self).ide0_cfg.config, old(self).ide_irq_latched);
                &&& final(self).ide0_cfg.config == v
                &&& r == EideRead::StubRead(LogLevel::Debug, v)
            },
            offset != 0x028 ==> final(self).ide0_cfg == old(self).ide0_cfg,
            offset == 0x02c ==> r == EideRead::Unimplemented,
            ide_read_reg(offset) matches Some(x) ==> r == x,
            offset == 0x400 ==> r == EideRead::StubRead(LogLevel::Debug, old(self).dma_control),
            offset == 0x408 ==> r == EideRead::StubRead(LogLevel::Info, old(self).dma_length),
            offset == 0x40c ==> r == EideRead::StubRead(LogLevel::Info, old(self).dma_addr),
            offset == 0x410 ==> r == EideRead::StubRead(LogLevel::Error, old(self).unknown),
            register_name(offset) is None ==> r == EideRead::Unexpected,
            final(self).ide1_cfg == old(self).ide1_cfg,
            final(self).ide_irq_latched == old(self).ide_irq_latched,
            final(self).ide_irq_line == old(self).ide_irq_line,
            final(self).dma_control == old(self).dma_control,
            final(self).dma_length == old(self).dma_length,
            final(self).dma_addr == old(self).dma_addr,
            final(self).unknown == old(self).unknown,
    {
        match offset {
            0x000 => EideRead::Value(self.ide0_cfg.primary_timing[0]),
            0x004 => EideRead::Value(self.ide0_cfg.primary_timing[1]),
            0x008 => EideRead::Value(self.ide0_cfg.secondary_timing[0]),
            0x00c => EideRead::Value(self.ide0_cfg.secondary_timing[1]),
            0x010 => EideRead::Value(self.ide1_cfg.primary_timing[0]),
            0x014 => EideRead::Value(self.ide1_cfg.primary_timing[1]),
            0x018 => EideRead::Value(self.ide1_cfg.secondary_timing[0]),
            0x01c => EideRead::Value(self.ide1_cfg.secondary_timing[1]),
            0x028 => {
                let v = if self.ide_irq_latched {
                    self.ide0_cfg.config | 0x18
                } else {
                    self.ide0_cfg.config & !0x18u32
                };
                self.ide0_cfg.config = v;
                EideRead::StubRead(LogLevel::Debug, v)
            },
            0x02c => EideRead::Unimplemented,
            0x1e0 => EideRead::Ide16(IdeReg::Data),
            0x1e4 => EideRead::Ide8(IdeReg::Error),
            0x1e8 => EideRead::Ide8(IdeReg::SectorCount),
            0x1ec => EideRead::Ide8(IdeReg::SectorNo),
            0x1f0 => EideRead::Ide8(IdeReg::CylinderLo),
            0x1f4 => EideRead::Ide8(IdeReg::CylinderHi),
            0x1f8 => EideRead::Ide8(IdeReg::DeviceHead),
            0x1fc => EideRead::Ide8(IdeReg::Status),
            0x3f8 => EideRead::Ide8(IdeReg::AltStatus),
            0x3fc => EideRead::Ide8(IdeReg::DataLatch),
            0x400 => EideRead::StubRead(LogLevel::Debug, self.dma_control),
            0x408 => EideRead::StubRead(LogLevel::Info, self.dma_length),
            0x40c => EideRead::StubRead(LogLevel::Info, self.dma_addr),
            0x410 => EideRead::StubRead(LogLevel::Error, self.unknown),
            _ => EideRead::Unexpected,
        }
    }

    /// Write a 32-bit register. Writing the IDE0 configuration word with
    /// bit 3 or 4 set acknowledges the interrupt latch and clears the line.
    /// The DMA length register stores the value plus 4 (drivers write the
    /// length minus 4).
    pub fn w32(&mut self, offset: u32, val: u32) -> (r: EideWrite)
        requires
            offset == 0x408 ==> val <= u32::MAX - 4,
        ensures
            offset == 0x000 ==> final(self).ide0_cfg.primary_timing@ == old(self).ide0_cfg.primary_timing@.update(0, val) && r == EideWrite::Done,
            offset == 0x004 ==> final(self).ide0_cfg.primary_timing@ == old(self).ide0_cfg.primary_timing@.update(1, val) && r == EideWrite::Done,
            offset == 0x008 ==> final(self).ide0_cfg.secondary_timing@ == old(self).ide0_cfg.secondary_timing@.update(0, val) && r == EideWrite::Done,
            offset == 0x00c ==> final(self).ide0_cfg.secondary_timing@ == old(self).ide0_cfg.secondary_timing@.update(1, val) && r == EideWrite::Done,
            offset == 0x010 ==> final(self).ide1_cfg.primary_timing@ == old(self).ide1_cfg.primary_timing@.update(0, val) && r == EideWrite::Done,
            offset == 0x014 ==> final(self).ide1_cfg.primary_timing@ == old(self).ide1_cfg.primary_timing@.update(1, val) && r == EideWrite::Done,
            offset == 0x018 ==> final(self).ide1_cfg.secondary_timing@ == old(self).ide1_cfg.secondary_timing@.update(0, val) && r == EideWrite::Done,
            offset == 0x01c ==> final(self).ide1_cfg.secondary_timing@ == old(self).ide1_cfg.secondary_timing@.update(1, val) && r == EideWrite::Done,
            offset == 0x028 ==> {
                &&& final(self).ide0_cfg.config == val
                &&& r == EideWrite::StubWrite(LogLevel::Debug)
                &&& (bit(val, 3) || bit(val, 4)) ==> !final(self).ide_irq_latched && !final(self).ide_irq_line
                &&& !(bit(val, 3) || bit(val, 4)) ==> final(self).ide_irq_latched == old(self).ide_irq_latched
                    && final(self).ide_irq_line == old(self).ide_irq_line
            },
            offset != 0x028 ==> final(self).ide_irq_latched == old(self).ide_irq_latched
                && final(self).ide_irq_line == old(self).ide_irq_line,
            offset == 0x02c ==> r == EideWrite::Unimplemented,
            ide_write_reg(offset, val) matches Some(x) ==> r == x,
            offset == 0x400 ==> final(self).dma_control == val && r == EideWrite::StubWrite(LogLevel::Debug),
            offset != 0x400 ==> final(self).dma_control == old(self).dma_control,
            offset == 0x408 ==> final(self).dma_length == val + 4 && r == EideWrite::Done,
            offset != 0x408 ==> final(self).dma_length == old(self).dma_length,
            offset == 0x40c ==> final(self).dma_addr == val && r == EideWrite::Done,
            offset != 0x40c ==> final(self).dma_addr == old(self).dma_addr,
            offset == 0x410 ==> final(self).unknown == val && r == EideWrite::StubWrite(LogLevel::Error),
            offset != 0x410 ==> final(self).unknown == old(self).unknown,
            register_name(offset) is None ==> r == EideWrite::Unexpected,
            ide_write_reg(offset, val) is Some || register_name(offset) is None ==> {
                &&& final(self).ide0_cfg == old(self).ide0_cfg
                &&& final(self).ide1_cfg == old(self).ide1_cfg
            },
    {
        match offset {
            0x000 => { self.ide0_cfg.primary_timing[0] = val; EideWrite::Done },
            0x004 => { self.ide0_cfg.primary_timing[1] = val; EideWrite::Done },
            0x008 => { self.ide0_cfg.secondary_timing[0] = val; EideWrite::Done },
            0x00c => { self.ide0_cfg.secondary_timing[1] = val; EideWrite::Done },
            0x010 => { self.ide1_cfg.primary_timing[0] = val; EideWrite::Done },
            0x014 => { self.ide1_cfg.primary_timing[1] = val; EideWrite::Done },
            0x018 => { self.ide1_cfg.secondary_timing[0] = val; EideWrite::Done },
            0x01c => { self.ide1_cfg.secondary_timing[1] = val; EideWrite::Done },
            0x028 => {
                self.ide0_cfg.config = val;
                if (val >> 3) & 1 == 1 || (val >> 4) & 1 == 1 {
                    self.ide_irq_latched = false;
                    self.ide_irq_line = false;
                }
                EideWrite::StubWrite(LogLevel::Debug)
            },
            0x02c => EideWrite::Unimplemented,
            0x1e0 => EideWrite::Ide16(IdeReg::Data, val as u16),
            0x1e4 => EideWrite::Ide8(IdeReg::Features, val as u8),
            0x1e8 => EideWrite::Ide8(IdeReg::SectorCount, val as u8),
            0x1ec => EideWrite::Ide8(IdeReg::SectorNo, val as u8),
            0x1f0 => EideWrite::Ide8(IdeReg::CylinderLo, val as u8),
            0x1f4 => EideWrite::Ide8(IdeReg::CylinderHi, val as u8),
            0x1f8 => EideWrite::Ide8(IdeReg::DeviceHead, val as u8),
            0x1fc => EideWrite::Ide8(IdeReg::Command, val as u8),
            0x3f8 => EideWrite::Ide8(IdeReg::DevControl, val as u8),
            0x3fc => EideWrite::Ide8(IdeReg::DataLatch, val as u8),
            0x400 => { self.dma_control = val; EideWrite::StubWrite(LogLevel::Debug) },
            0x408 => { self.dma_length = val + 4; EideWrite::Done },
            0x40c => { self.dma_addr = val; EideWrite::Done },
            0x410 => { self.unknown = val; EideWrite::StubWrite(LogLevel::Error) },
            _ => EideWrite::Unexpected,
        }
    }
}

} // verus!
