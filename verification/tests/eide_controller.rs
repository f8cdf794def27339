use clicky_core::devices::platform::pp::eide::{
    EIDECon, EideRead, EideWrite, IdeReg, LogLevel, MemAccessKind,
};

#[test]
fn dma_steps_by_halfwords_in_the_configured_direction() {
    let mut c = EIDECon::new();
    assert!(c.do_dma().is_err());
    assert_eq!(c.w32(0x408, 0), EideWrite::Done);
    assert_eq!(c.dma_length, 4);
    assert_eq!(c.w32(0x40c, 0x1000), EideWrite::Done);
    assert_eq!(c.w32(0x400, 1 << 3), EideWrite::StubWrite(LogLevel::Debug));
    match c.do_dma() {
        Ok((MemAccessKind::Read, 0x1000)) => {}
        _ => panic!("expected a read at 0x1000"),
    }
    match c.do_dma() {
        Ok((MemAccessKind::Read, 0x1002)) => {}
        _ => panic!("expected a read at 0x1002"),
    }
    assert!(c.do_dma().is_err());
    c.w32(0x400, 0);
    c.w32(0x408, 0);
    match c.do_dma() {
        Ok((MemAccessKind::Write, 0x1004)) => {}
        _ => panic!("expected a write"),
    }
}

#[test]
fn interrupt_latch_sets_on_rising_edge_and_clears_on_ack() {
    let mut c = EIDECon::new();
    c.update_irq_latch(true);
    assert!(c.ide_irq_latched && c.ide_irq_line);
    c.update_irq_latch(true);
    assert!(c.ide_irq_latched);
    assert_eq!(c.r32(0x028), EideRead::StubRead(LogLevel::Debug, 0x18));
    assert_eq!(c.w32(0x028, 1 << 4), EideWrite::StubWrite(LogLevel::Debug));
    assert!(!c.ide_irq_latched && !c.ide_irq_line);
    c.update_irq_latch(true);
    assert!(!c.ide_irq_latched, "no new edge while the device stays asserted");
    c.update_irq_latch(false);
    c.update_irq_latch(true);
    assert!(c.ide_irq_latched);
    assert_eq!(c.r32(0x028), EideRead::StubRead(LogLevel::Debug, 0x18));
    c.w32(0x028, 0x20);
    assert!(c.ide_irq_latched);
}

#[test]
fn timings_read_back_and_task_file_goes_to_the_device() {
    let mut c = EIDECon::new();
    c.w32(0x004, 0xabcd);
    c.w32(0x018, 7);
    assert_eq!(c.r32(0x004), EideRead::Value(0xabcd));
    assert_eq!(c.r32(0x018), EideRead::Value(7));
    assert_eq!(c.r32(0x000), EideRead::Value(0));
    assert_eq!(c.r32(0x1e0), EideRead::Ide16(IdeReg::Data));
    assert_eq!(c.r32(0x1fc), EideRead::Ide8(IdeReg::Status));
    assert_eq!(c.w32(0x1fc, 0x1ec), EideWrite::Ide8(IdeReg::Command, 0xec));
    assert_eq!(c.w32(0x1e0, 0x12345), EideWrite::Ide16(IdeReg::Data, 0x2345));
    assert_eq!(c.r32(0x02c), EideRead::Unimplemented);
    assert_eq!(c.r32(0x020), EideRead::Unexpected);
    assert_eq!(c.w32(0x500, 1), EideWrite::Unexpected);
    assert_eq!(c.r32(0x410), EideRead::StubRead(LogLevel::Error, 0));
    assert_eq!(c.probe(0x1f8), Some("Device Head"));
    assert_eq!(c.probe(0x404), None);
}
