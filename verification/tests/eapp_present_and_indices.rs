use clicky_core::devices::platform::pp::eide::EIDECon;
use clicky_core::sys::eapp::live_gl::{
    draw_elements_supported, indices_from_bytes, DRAW_MODE, DRAW_MODE_TRIANGLE_STRIP, GL_UNSIGNED_SHORT,
};
use clicky_core::sys::eapp::{bytes_from_snapshot, words_from_snapshot, GlMemoryRegion, GlMemorySnapshot, LiveGlState};

fn snapshot(hex: &str) -> GlMemorySnapshot {
    GlMemorySnapshot {
        addr: 0x1000_0000,
        requested_len: hex.len() / 2,
        len: hex.len() / 2,
        truncated: false,
        region: GlMemoryRegion::WorkRam,
        file_backing: None,
        bytes_hex: hex.to_string(),
    }
}

#[test]
fn snapshot_hex_is_read_two_text_bytes_at_a_time() {
    assert_eq!(bytes_from_snapshot(&snapshot("78563412ff")), vec![0x78, 0x56, 0x34, 0x12, 0xff]);
    assert_eq!(words_from_snapshot(&snapshot("78563412ff")), vec![0x1234_5678]);
    assert_eq!(bytes_from_snapshot(&snapshot("+f0A")), vec![0x0f, 0x0a]);
    // two-byte characters on even offsets are pieces that give nothing
    assert_eq!(bytes_from_snapshot(&snapshot("éé")), Vec::<u8>::new());
    assert_eq!(bytes_from_snapshot(&snapshot("é0a")), vec![0x0a]);
    assert_eq!(words_from_snapshot(&snapshot("éé")), Vec::<u32>::new());
}

#[test]
fn dma_without_length_leaves_the_controller_as_it_was() {
    let mut c = EIDECon::new();
    c.dma_addr = 0x1234;
    c.dma_control = 8;
    c.unknown = 7;
    c.ide_irq_was_asserted = true;
    c.ide0_cfg.config = 0x30;
    assert!(c.do_dma().is_err());
    assert_eq!((c.dma_addr, c.dma_length, c.dma_control, c.unknown), (0x1234, 0, 8, 7));
    assert!(c.ide_irq_was_asserted);
    assert_eq!(c.ide0_cfg.config, 0x30);
}

#[test]
fn candidate_present_opens_a_missing_frame_and_completes_it() {
    let dma = vec![0x2du8; 320 * 240 * 2];
    let mut lg = LiveGlState::new(false, false, true, "game".to_string());
    let first = lg.present_candidate(&dma).expect("a frame is completed");
    assert_eq!(first.index, 1);
    assert!(!lg.frame_active);
    assert!(!lg.has_dma_overlay);
    lg.begin_frame();
    let second = lg.present_candidate(&dma).expect("a frame is completed");
    assert_eq!(second.index, 2);

    let mut content = vec![0x2du8; 320 * 240 * 2];
    content[0] = 0x1f;
    content[1] = 0x00;
    let third = lg.present_candidate(&content).expect("a frame is completed");
    assert_eq!(third.index, 3);
    assert!(lg.has_dma_overlay);
    assert_eq!(lg.framebuffer[0].b, 255);

    let mut one_shot = LiveGlState::new(false, false, false, "game".to_string());
    assert!(one_shot.present_candidate(&dma).is_none());
    assert_eq!(one_shot.completed_frame_index, 0);
}

#[test]
fn draw_elements_take_short_triangle_strips_only() {
    assert!(draw_elements_supported(DRAW_MODE_TRIANGLE_STRIP, 3, GL_UNSIGNED_SHORT, 0x1000_0000));
    assert!(draw_elements_supported(DRAW_MODE_TRIANGLE_STRIP, 4096, GL_UNSIGNED_SHORT, 4));
    assert!(!draw_elements_supported(DRAW_MODE_TRIANGLE_STRIP, 2, GL_UNSIGNED_SHORT, 4));
    assert!(!draw_elements_supported(DRAW_MODE_TRIANGLE_STRIP, 4097, GL_UNSIGNED_SHORT, 4));
    assert!(!draw_elements_supported(DRAW_MODE, 4, GL_UNSIGNED_SHORT, 4));
    assert!(!draw_elements_supported(DRAW_MODE_TRIANGLE_STRIP, 4, 0x1401, 4));
    assert!(!draw_elements_supported(DRAW_MODE_TRIANGLE_STRIP, 4, GL_UNSIGNED_SHORT, 0));
    assert_eq!(indices_from_bytes(&[1, 0, 0x34, 0x12, 9]), vec![1, 0x1234]);
    assert_eq!(indices_from_bytes(&[]), Vec::<usize>::new());
}
