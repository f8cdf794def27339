use clicky_core::sys::eapp::live_gl::{
    indexed_quad_group_count, manifest_gl_format, quad_group_count, BeginOutcome, BundleFile,
    LiveGlState, DRAW_MODE, DRAW_MODE_TRIANGLE_STRIP, FB_HEIGHT, FB_PIXELS, FB_WIDTH,
    GL_COLOR_BUFFER_BIT,
};
use clicky_core::sys::eapp::{framebuffer_hash, Rgba8, TextureFormat};

fn rgb565_2x2() -> Vec<u8> {
    vec![0x00, 0xf8, 0xe0, 0x07, 0x1f, 0x00, 0xff, 0xff]
}

#[test]
fn quad_group_count_accepts_tight_and_batched_quads() {
    assert_eq!(quad_group_count(DRAW_MODE, 0, 4), Some(1));
    assert_eq!(quad_group_count(DRAW_MODE, 0, 8), Some(2));
    assert_eq!(quad_group_count(DRAW_MODE, 0, 28), Some(7));
}

#[test]
fn quad_group_count_rejects_non_quad_shapes() {
    assert_eq!(quad_group_count(DRAW_MODE, 1, 4), None);
    assert_eq!(quad_group_count(DRAW_MODE, 0, 3), None);
    assert_eq!(quad_group_count(DRAW_MODE, 0, 10), None);
    assert_eq!(quad_group_count(4, 0, 4), None);
}

#[test]
fn indexed_quad_group_count_accepts_complete_index_streams() {
    assert_eq!(indexed_quad_group_count(DRAW_MODE, 4), Some(1));
    assert_eq!(indexed_quad_group_count(DRAW_MODE, 960), Some(240));
}

#[test]
fn indexed_quad_group_count_rejects_triangle_strips_and_partial_quads() {
    assert_eq!(indexed_quad_group_count(DRAW_MODE_TRIANGLE_STRIP, 4), None);
    assert_eq!(indexed_quad_group_count(DRAW_MODE, 3), None);
    assert_eq!(indexed_quad_group_count(DRAW_MODE, 10), None);
}

#[test]
fn build_upload_decodes_pixels_and_preserves_dims() {
    let payload = rgb565_2x2();
    let upload =
        LiveGlState::build_upload(0, 0x0de1, 2, 2, 0x1907, 0x8363, 0x1000_0000, &payload, None);
    assert_eq!(upload.format, Some(TextureFormat::Rgb565));
    assert_eq!(upload.width, 2);
    assert_eq!(upload.height, 2);
    let tex = upload.texture.expect("texture decoded");
    assert_eq!(tex.width, 2);
    assert_eq!(tex.height, 2);
    assert_eq!(tex.pixels.len(), 4);
    assert_eq!(tex.pixels[0].r, 255);
}

#[test]
fn build_upload_rejects_short_payload() {
    let payload = vec![0u8; 2];
    let upload =
        LiveGlState::build_upload(0, 0x0de1, 2, 2, 0x1907, 0x8363, 0x1000_0000, &payload, None);
    assert_eq!(upload.format, Some(TextureFormat::Rgb565));
    assert!(upload.texture.is_none(), "short payload must not decode");
}

#[test]
fn build_upload_rejects_unsupported_format() {
    let upload = LiveGlState::build_upload(0, 0x0de1, 2, 2, 0xdead, 0xbeef, 0x1000_0000, &[], None);
    assert!(upload.format.is_none());
    assert!(upload.texture.is_none());
}

#[test]
fn copy_framebuffer_updates_bound_texture_in_gl_row_order() {
    let mut lg = LiveGlState::new(false, false, false, "test".to_string());
    lg.framebuffer[(FB_HEIGHT - 1) * FB_WIDTH] = Rgba8::rgba(1, 2, 3, 255);
    lg.framebuffer[(FB_HEIGHT - 2) * FB_WIDTH] = Rgba8::rgba(4, 5, 6, 255);
    lg.uploads.push(LiveGlState::build_upload(
        0,
        0x0de1,
        2,
        2,
        0x1907,
        0x8363,
        0,
        &[0; 8],
        Some(0x38),
    ));

    lg.copy_framebuffer_to_texture(0x38, 0, 0, 1, 2);

    let texture = lg.uploads[0].texture.as_ref().expect("copied texture");
    assert_eq!(texture.width, 1);
    assert_eq!(texture.height, 2);
    assert_eq!(texture.pixels[0], Rgba8::rgba(1, 2, 3, 255));
    assert_eq!(texture.pixels[1], Rgba8::rgba(4, 5, 6, 255));
}

#[test]
fn select_upload_prefers_tex_name_then_falls_back_to_dims() {
    let mut lg = LiveGlState::new(true, false, false, "test".to_string());
    lg.uploads.push(LiveGlState::build_upload(
        0,
        0x0de1,
        50,
        50,
        0x1908,
        0x8034,
        0x1000_0000,
        &vec![0u8; 50 * 50 * 2],
        Some(0x13),
    ));
    lg.uploads.push(LiveGlState::build_upload(
        1,
        0x0de1,
        50,
        50,
        0x1908,
        0x8034,
        0x1000_0010,
        &vec![0u8; 50 * 50 * 2],
        Some(0x23),
    ));
    assert_eq!(lg.select_upload_by_tex_name(0x23), Some(1));
    assert_eq!(lg.select_upload_by_tex_name(0x13), Some(0));
    assert_eq!(lg.select_upload_by_tex_name(0x99), None);
    lg.uploads.push(LiveGlState::build_upload(
        2,
        0x0de1,
        50,
        50,
        0x1908,
        0x8034,
        0x1000_0020,
        &vec![0u8; 50 * 50 * 2],
        Some(0x13),
    ));
    assert_eq!(lg.select_upload_by_tex_name(0x13), Some(2));
}

#[test]
fn select_upload_matches_by_dimensions() {
    let mut lg = LiveGlState::new(true, false, false, "test".to_string());
    lg.uploads.push(LiveGlState::build_upload(
        0,
        0x0de1,
        50,
        50,
        0x1908,
        0x8034,
        0x1000_0000,
        &vec![0u8; 50 * 50 * 2],
        None,
    ));
    lg.uploads.push(LiveGlState::build_upload(
        1,
        0x0de1,
        250,
        162,
        0x1908,
        0x8033,
        0x1000_0010,
        &vec![0u8; 250 * 162 * 2],
        None,
    ));
    assert_eq!(lg.select_upload_by_dims(50, 50), Some(0));
    assert_eq!(lg.select_upload_by_dims(250, 162), Some(1));
    assert_eq!(lg.select_upload_by_dims(999, 999), None);
}

#[test]
fn present_applies_configurable_vflip_only_when_enabled() {
    let mut lg = LiveGlState::new(false, false, false, "test".to_string());
    lg.framebuffer[0] = Rgba8::rgba(255, 0, 0, 255);
    lg.framebuffer[FB_WIDTH * (FB_HEIGHT - 1)] = Rgba8::rgba(0, 0, 255, 255);
    let no_flip = lg.present();
    assert_eq!(no_flip[0], Rgba8::rgba(255, 0, 0, 255));
    assert_eq!(
        no_flip[FB_WIDTH * (FB_HEIGHT - 1)],
        Rgba8::rgba(0, 0, 255, 255)
    );

    lg.present_vflip = true;
    let flipped = lg.present();
    assert_eq!(flipped[0], Rgba8::rgba(0, 0, 255, 255));
    assert_eq!(
        flipped[FB_WIDTH * (FB_HEIGHT - 1)],
        Rgba8::rgba(255, 0, 0, 255)
    );
    assert_eq!(lg.framebuffer[0], Rgba8::rgba(255, 0, 0, 255));
}

#[test]
fn clear_uses_guest_color_and_tetris_retains_surface_between_frames() {
    let mut lg = LiveGlState::new(true, false, false, "66666".to_string());
    let blue = Rgba8::rgba(10, 20, 30, 255);
    lg.set_clear_color(blue);
    lg.clear(GL_COLOR_BUFFER_BIT);
    assert_eq!(lg.framebuffer[0], blue);

    lg.framebuffer[0] = Rgba8::rgba(40, 50, 60, 255);
    lg.frame_base_translation = (102.0f32.to_bits(), 7.0f32.to_bits());
    lg.board_base_translation_valid = true;
    lg.previous_frame_draw_count = 12;
    lg.reset_for_frame();
    assert_eq!(lg.framebuffer[0], Rgba8::rgba(40, 50, 60, 255));
    assert_eq!(lg.frame_base_translation, (102.0f32.to_bits(), 7.0f32.to_bits()));
    assert!(lg.board_base_translation_valid);
    assert!(!lg.frame_material_bound);
    assert!(lg.use_incremental_translation);
}

#[test]
fn reset_for_frame_clears_per_frame_state_but_keeps_uploads() {
    let mut lg = LiveGlState::new(true, false, false, "test".to_string());
    lg.uploads.push(LiveGlState::build_upload(
        0,
        0x0de1,
        2,
        2,
        0x1907,
        0x8363,
        0x1000_0000,
        &rgb565_2x2(),
        None,
    ));
    lg.translation = (10.0f32.to_bits(), 20.0f32.to_bits());
    lg.draw_count_in_frame = 2;
    lg.framebuffer[0] = Rgba8::rgba(1, 2, 3, 4);
    lg.reset_for_frame();
    assert_eq!(lg.translation, (0.0f32.to_bits(), 0.0f32.to_bits()));
    assert_eq!(lg.draw_count_in_frame, 0);
    assert_eq!(lg.framebuffer[0], Rgba8::rgba(0, 0, 0, 0));
    assert_eq!(lg.uploads.len(), 1, "uploads persist across frames");
}

#[test]
fn clear_without_colour_bit_keeps_pixels() {
    let mut lg = LiveGlState::new(false, false, false, "test".to_string());
    lg.framebuffer[5] = Rgba8::rgba(9, 9, 9, 9);
    lg.clear(0x100);
    assert_eq!(lg.framebuffer[5], Rgba8::rgba(9, 9, 9, 9));
}

#[test]
fn frame_lifecycle_reports_double_begin_and_orphan_present() {
    let mut lg = LiveGlState::new(false, false, false, "test".to_string());
    assert!(lg.complete_frame().is_none());
    assert_eq!(lg.frame_anomalies, vec!["present_without_active_frame ordinal=157".to_string()]);
    assert_eq!(lg.begin_frame(), BeginOutcome::Began);
    assert!(lg.frame_active);
    assert_eq!(lg.begin_frame(), BeginOutcome::DoubleBegin);
    assert_eq!(
        lg.frame_anomalies[1],
        "incomplete_frame double_begin ordinal=158 previous_not_presented draws=0"
    );
    let frame = lg.complete_frame().expect("open frame presents");
    assert_eq!(frame.index, 1);
    assert_eq!(frame.draw_count, 0);
    assert!(frame.handle_signature.is_empty());
    assert_eq!(frame.presented_hash, framebuffer_hash(&lg.presented_buffer));
    assert_eq!(
        lg.frame_anomalies[2],
        "clear_without_draws ordinal=157 (present with zero draws)"
    );
    assert!(!lg.frame_active);
}

#[test]
fn dma_overlay_frame_presents_and_tracks_hashes() {
    let mut lg = LiveGlState::new(true, false, false, "test".to_string());
    lg.begin_frame();
    let dma = vec![0xffu8; FB_PIXELS * 2];
    lg.overlay_dma_rgb565(&dma);
    assert!(lg.has_dma_overlay);
    assert_eq!(lg.framebuffer[0], Rgba8::rgba(255, 255, 255, 255));
    let frame = lg.complete_frame().expect("presented");
    assert_eq!(frame.index, 1);
    assert_eq!(lg.completed_buffer, lg.framebuffer);
    assert_eq!(frame.internal_hash, framebuffer_hash(&lg.framebuffer));
    assert_eq!(lg.first_presented_hash, Some(frame.presented_hash));
    assert_eq!(lg.prev_presented_hash, Some(frame.presented_hash));
    assert!(lg.unique_presented_hashes.contains(&frame.presented_hash));
    lg.begin_frame();
    lg.overlay_dma_rgb565(&dma);
    let again = lg.complete_frame().expect("presented");
    assert_eq!(again.index, 2);
    assert_eq!(lg.repeated_presented_count, 1);
    assert_eq!(lg.first_changed_frame, None);
}

#[test]
fn short_dma_background_is_ignored() {
    let mut lg = LiveGlState::new(false, false, false, "test".to_string());
    lg.overlay_dma_rgb565(&[0xff; 10]);
    assert!(lg.has_dma_overlay);
    assert_eq!(lg.framebuffer[0], Rgba8::rgba(0, 0, 0, 0));
}

#[test]
fn copy_into_unknown_name_appends_and_is_selected() {
    let mut lg = LiveGlState::new(false, false, false, "test".to_string());
    lg.framebuffer[(FB_HEIGHT - 1) * FB_WIDTH + 2] = Rgba8::rgba(7, 8, 9, 255);
    lg.copy_framebuffer_to_texture(0x44, 2, 0, 1, 1);
    assert_eq!(lg.uploads.len(), 1);
    assert_eq!(lg.uploads[0].tex_name, Some(0x44));
    assert_eq!(lg.uploads[0].format, Some(TextureFormat::Rgba8888));
    let t = lg.uploads[0].texture.as_ref().unwrap();
    assert_eq!(t.pixels[0], Rgba8::rgba(7, 8, 9, 255));
    assert_eq!(lg.select_upload_by_tex_name(0x44), Some(0));
    lg.copy_framebuffer_to_texture(0x45, -5, 0, 1, 1);
    assert_eq!(lg.uploads[1].texture.as_ref().unwrap().pixels[0], Rgba8::rgba(0, 0, 0, 255));
    lg.copy_framebuffer_to_texture(0, 0, 0, 1, 1);
    lg.copy_framebuffer_to_texture(0x46, 0, 0, 4096, 1);
    assert_eq!(lg.uploads.len(), 2);
}

#[test]
fn text_chars_are_consumed_in_push_order() {
    let mut lg = LiveGlState::new(false, false, false, "test".to_string());
    assert_eq!(lg.take_text_char_for_draw(7), None);
    lg.record_text_char_push(7, 'H' as u32);
    lg.record_text_char_push(7, 'I' as u32);
    assert_eq!(lg.take_text_char_for_draw(7), Some('H' as u32));
    assert_eq!(lg.take_text_char_for_draw(7), Some('I' as u32));
    assert_eq!(lg.take_text_char_for_draw(7), None);
    lg.reset_text_char_consumption(7);
    assert_eq!(lg.take_text_char_for_draw(7), Some('H' as u32));
}

#[test]
fn frame_trace_summary_numbers_draws_and_names_surfaces() {
    let mut lg = LiveGlState::new(false, false, false, "test".to_string());
    assert_eq!(lg.take_frame_trace_summary(1, 0), None);
    lg.ordinal_trace = vec![(158, 2), (37, 0), (159, 0x1a), (37, 0), (12, 0), (157, 2)];
    let line = lg.take_frame_trace_summary(3, 2).expect("summary");
    assert_eq!(
        line,
        "lifecycle frame=3 draws=2 first_surface=158 last_surface=157 trace=[158(h0x2),37#1,159(h0x1a),37#2,12,157(h0x2)]"
    );
    assert!(lg.ordinal_trace.is_empty());
    lg.ordinal_trace = vec![(12, 0)];
    assert_eq!(
        lg.take_frame_trace_summary(4, 0).unwrap(),
        "lifecycle frame=4 draws=0 first_surface=none last_surface=none trace=[12]"
    );
}

#[test]
fn preload_names_decoded_files_in_order() {
    let mut ipd = vec![0u8; 18];
    ipd[0..4].copy_from_slice(&1u32.to_le_bytes());
    ipd[4..8].copy_from_slice(&1u32.to_le_bytes());
    ipd[16..18].copy_from_slice(&0xf800u16.to_le_bytes());
    let files = vec![
        BundleFile {
            display: "b/a.ipd".to_string(),
            file_name: "a.ipd".to_string(),
            extension: "ipd".to_string(),
            data: ipd.clone(),
        },
        BundleFile {
            display: "b/readme.txt".to_string(),
            file_name: "readme.txt".to_string(),
            extension: "txt".to_string(),
            data: vec![1, 2, 3],
        },
        BundleFile {
            display: "b/c.ipd".to_string(),
            file_name: "c.ipd".to_string(),
            extension: "ipd".to_string(),
            data: ipd,
        },
    ];
    let mut lg = LiveGlState::new(false, false, false, "test".to_string());
    let lines = lg.preload_bundle_textures(files);
    assert_eq!(
        lines,
        vec![
            "preloaded tex#1 <- a.ipd (1x1, Rgb565)".to_string(),
            "preloaded tex#2 <- c.ipd (1x1, Rgb565)".to_string(),
        ]
    );
    assert_eq!(lg.uploads.len(), 2);
    assert_eq!(lg.uploads[1].tex_name, Some(2));
    assert_eq!(lg.uploads[1].index, 1);
    assert_eq!(lg.uploads[1].source_file.as_deref(), Some("b/c.ipd"));
    assert_eq!((lg.uploads[0].source_format, lg.uploads[0].pixel_type), (0x1907, 0x8363));
    assert_eq!(lg.select_upload_by_tex_name(1), Some(0));
}

#[test]
fn manifest_formats_map_to_upload_enumerants() {
    assert_eq!(manifest_gl_format(TextureFormat::Rgb565), (0x1907, 0x8363));
    assert_eq!(manifest_gl_format(TextureFormat::A8), (0x1906, 0x1401));
    assert_eq!(manifest_gl_format(TextureFormat::LuminanceAlpha88), (0x190a, 0x1401));
}

#[test]
fn skipped_draws_are_counted_and_logged() {
    let mut lg = LiveGlState::new(false, false, false, "test".to_string());
    lg.note_skipped_draw("handle 3".to_string());
    assert_eq!(lg.skipped_draws_this_frame, 1);
    assert_eq!(lg.frame_anomalies, vec!["skipped_draw handle 3".to_string()]);
    lg.note_draw_outside_frame();
    assert!(lg.frame_active);
    assert_eq!(lg.frame_anomalies[1], "draw_outside_active_frame");
}
