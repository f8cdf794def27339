use clicky_core::sys::eapp::bus::{
    bus_target, dma_has_content, parse_watch_range, watch_value_char, BusRead, BusTarget, BusWrite, EappBus, DMA_FB_SIZE,
};
use clicky_core::sys::eapp::capture::{
    classify_trace_value, file_backing_for_addr, memory_region, snapshot_from_bytes,
    stack_word_values, usse_read_len, StagedFile, WorkRamAllocator,
};
use clicky_core::sys::eapp::{GlMemoryRegion, GlValueClass};

#[test]
fn bus_targets_follow_the_memory_map() {
    assert_eq!(bus_target(0x1800_0010, 0x100), BusTarget::Image(0x10));
    assert_eq!(bus_target(0x1800_0100, 0x100), BusTarget::Unmapped);
    assert_eq!(bus_target(0x1000_0004, 0x100), BusTarget::WorkRam(4));
    assert_eq!(bus_target(0x1400_0008, 0x100), BusTarget::HwStub(8));
    assert_eq!(bus_target(0x0000_1000, 0x100), BusTarget::Unmapped);
}

#[test]
fn dma_framebuffer_reads_back_little_endian_writes() {
    let mut bus = EappBus::new(0x100);
    assert_eq!(bus.dma_framebuf.len(), DMA_FB_SIZE);
    let fb = 0x1400_0000 + 0x20000;
    assert_eq!(bus.write(fb + 8, 0x1122_3344, 4), BusWrite::Done);
    assert_eq!(bus.read(fb + 8, 4), BusRead::Value(0x1122_3344));
    assert_eq!(bus.read(fb + 8, 2), BusRead::Value(0x3344));
    assert_eq!(bus.read(fb + 11, 1), BusRead::Value(0x11));
    assert!(bus.hw_dma_dirty);
    assert_eq!(bus.hw_fb_write_count, 1);
    assert_eq!(bus.hw_fb_write_min, 8);
    assert_eq!(bus.hw_fb_write_max, 12);
    // Control registers read as 1; past the framebuffer reads 0.
    assert_eq!(bus.read(0x1400_0010, 4), BusRead::Value(1));
    assert_eq!(bus.read(fb + DMA_FB_SIZE as u32 - 2, 4), BusRead::Value(0));
    // RAM accesses are handed back as offsets.
    assert_eq!(bus.read(0x1800_0004, 4), BusRead::Image(4));
    assert_eq!(bus.write(0x1000_0020, 5, 4), BusWrite::WorkRam(0x20));
    assert_eq!(bus.write(0x0, 5, 4), BusWrite::Unexpected);
}

#[test]
fn rewriting_pixel_zero_starts_a_dma_frame() {
    let mut bus = EappBus::new(0);
    let fb = 0x1400_0000 + 0x20000;
    bus.write(fb, 1, 4);
    assert_eq!(bus.hw_dma_frame, 0);
    bus.write(fb + 4, 2, 4);
    bus.write(fb, 3, 4);
    assert_eq!(bus.hw_dma_frame, 1);
    // Narrow writes store bytes but are not counted.
    bus.write(fb, 0xab, 1);
    assert_eq!(bus.hw_fb_write_count, 3);
    assert_eq!(bus.read(fb, 4), BusRead::Value(0xab));
}

#[test]
fn watched_writes_are_logged_with_the_pc() {
    let mut bus = EappBus::new(0x100);
    bus.watch = Some((0x1000_0010, 0x1000_0020));
    bus.pending_pc = 0x1800_0040;
    bus.write(0x1000_000e, 7, 4);
    bus.write(0x1000_0020, 8, 4);
    bus.write(0x1000_0000, 9, 1);
    assert_eq!(bus.watch_log.len(), 1);
    assert_eq!(bus.watch_log[0].addr, 0x1000_000e);
    assert_eq!(bus.watch_log[0].val, 7);
    assert_eq!(bus.watch_log[0].pc, 0x1800_0040);
}

#[test]
fn trace_values_are_classified_by_region() {
    assert_eq!(memory_region(0x1000_0000, 0x100), GlMemoryRegion::WorkRam);
    assert_eq!(memory_region(0x1800_00ff, 0x100), GlMemoryRegion::Image);
    assert_eq!(memory_region(0x1800_0100, 0x100), GlMemoryRegion::Unmapped);
    assert_eq!(memory_region(0x1f00_fff0, 0x100), GlMemoryRegion::Trampoline);
    assert_eq!(classify_trace_value(0x1000_0040, 0), GlValueClass::MappedPointer);
    assert_eq!(classify_trace_value(0x1f00_0000, 0), GlValueClass::CodePointer);
    assert_eq!(classify_trace_value(0x3f80_0000, 0), GlValueClass::Float);
    assert_eq!(classify_trace_value(42, 0), GlValueClass::Scalar);
}

#[test]
fn snapshots_record_truncation_and_hex() {
    let s = snapshot_from_bytes(0x1000_0000, 4, GlMemoryRegion::WorkRam, None, &[0xde, 0xad]);
    assert_eq!(s.len, 2);
    assert!(s.truncated);
    assert_eq!(s.bytes_hex, "dead");
    let empty = snapshot_from_bytes(0, 4, GlMemoryRegion::Unmapped, None, &[]);
    assert_eq!(empty.len, 0);
    assert!(!empty.truncated);
    assert_eq!(empty.bytes_hex, "");
}

#[test]
fn stack_words_drop_a_partial_tail() {
    let words = stack_word_values(&[1, 0, 0, 0, 0x78, 0x56, 0x34, 0x12, 9]);
    assert_eq!(words, vec![(0, 1), (4, 0x1234_5678)]);
}

#[test]
fn latest_staged_file_backs_an_address() {
    let files = vec![
        StagedFile { generation: 1, payload_addr: 0x1000_0000, len: 0x100, path: "a.bin".to_string() },
        StagedFile { generation: 2, payload_addr: 0x1000_0080, len: 0x100, path: "b.bin".to_string() },
    ];
    let b = file_backing_for_addr(&files, 0x1000_0090).unwrap();
    assert_eq!(b.path, "b.bin");
    assert_eq!(b.offset, 0x10);
    let a = file_backing_for_addr(&files, 0x1000_0010).unwrap();
    assert_eq!(a.path, "a.bin");
    assert!(file_backing_for_addr(&files, 0x2000_0000).is_none());
}

#[test]
fn usse_read_length_is_bounded() {
    assert_eq!(usse_read_len(Some((0x100, 0x10)), 0), 0xf0);
    assert_eq!(usse_read_len(Some((0x10, 0x20)), 0), 0);
    assert_eq!(usse_read_len(None, 64), 64);
    assert_eq!(usse_read_len(None, u32::MAX), 256 * 1024);
    assert_eq!(usse_read_len(None, 0x10_0000), 512 * 1024);
}

#[test]
fn dma_statistics_and_presence() {
    let mut bus = EappBus::new(0);
    assert_eq!(bus.dma_coverage(), None);
    assert!(!bus.dma_fully_written());
    let fb = 0x1400_0000 + 0x20000;
    bus.write(fb + 1000, 1, 4);
    bus.write(fb + DMA_FB_SIZE as u32 - 4, 1, 4);
    assert_eq!(bus.dma_coverage(), Some((DMA_FB_SIZE as u32 - 1000, 99)));
    assert!(bus.dma_fully_written());
    assert!(!dma_has_content(&[0x2d, 0x2d]));
    assert!(dma_has_content(&[0x2d, 0x00]));
    assert!(!dma_has_content(&[]));
}

#[test]
fn watch_log_drains_with_printable_values() {
    let mut bus = EappBus::new(0);
    bus.watch = Some((0x1000_0000, 0x1000_0010));
    bus.write(0x1000_0004, 0x41, 1);
    let hits = bus.take_watch_log();
    assert_eq!(hits.len(), 1);
    assert!(bus.watch_log.is_empty());
    assert_eq!(watch_value_char(hits[0].val), Some('A'));
    assert_eq!(watch_value_char(0x1234_5601), None);
}

#[test]
fn watch_ranges_parse_like_the_environment_setting() {
    assert_eq!(parse_watch_range("0x10000000,0x10"), Some((0x1000_0000, 0x1000_0010)));
    assert_eq!(parse_watch_range(" 10000000 "), Some((0x1000_0000, 0x1000_0020)));
    assert_eq!(parse_watch_range("0x10,zz"), Some((0x10, 0x30)));
    assert_eq!(parse_watch_range("4294967295,1"), Some((u32::MAX, 0)));
    assert_eq!(parse_watch_range("zz,4"), None);
    assert_eq!(parse_watch_range(""), None);
}

#[test]
fn work_ram_allocations_round_to_sixteen() {
    let mut a = WorkRamAllocator { next: 0x1000_0000 };
    assert_eq!(a.alloc_zeroed(1), 0x1000_0000);
    assert_eq!(a.next, 0x1000_0010);
    assert_eq!(a.alloc_zeroed(0x20), 0x1000_0010);
    assert_eq!(a.next, 0x1000_0030);
    let mut full = WorkRamAllocator { next: 0x13ff_fff8 };
    assert_eq!(full.alloc_zeroed(16), 0);
    assert_eq!(full.next, 0x13ff_fff8);
}
