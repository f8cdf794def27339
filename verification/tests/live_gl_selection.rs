use clicky_core::sys::eapp::live_gl::{texture_extent_contains, LiveGlUpload, UvNeed};
use clicky_core::sys::eapp::{LiveGlState, Rgba8, Texture, TextureFormat};

fn upload(index: usize, w: usize, h: usize, format: TextureFormat, decoded: bool, tex_name: Option<u32>) -> LiveGlUpload {
    LiveGlUpload {
        index,
        target: 0x0de1,
        width: w,
        height: h,
        source_format: 0,
        pixel_type: 0,
        source_ptr: 0,
        source_file: None,
        source_file_offset: None,
        format: Some(format),
        texture: if decoded {
            Some(Texture { width: w, height: h, pixels: vec![Rgba8::rgba(0, 0, 0, 0); w * h] })
        } else {
            None
        },
        tex_name,
    }
}

fn need(extent: usize) -> UvNeed {
    UvNeed { extent, integer_edge: false }
}

fn state(game: &str, uploads: Vec<LiveGlUpload>) -> LiveGlState {
    let mut lg = LiveGlState::new(false, false, false, game.to_string());
    lg.uploads = uploads;
    lg
}

#[test]
fn texture_extent_accepts_one_texel_past_an_integer_edge() {
    assert!(texture_extent_contains(32, need(32)));
    assert!(!texture_extent_contains(32, need(33)));
    assert!(texture_extent_contains(32, UvNeed { extent: 33, integer_edge: true }));
    assert!(!texture_extent_contains(32, UvNeed { extent: 34, integer_edge: true }));
    assert!(!texture_extent_contains(0, UvNeed { extent: 1, integer_edge: true }));
}

#[test]
fn smallest_containing_upload_prefers_the_first_of_the_smallest() {
    let lg = state("game", vec![
        upload(0, 64, 64, TextureFormat::Rgba8888, true, None),
        upload(1, 32, 32, TextureFormat::Rgba8888, true, None),
        upload(2, 16, 16, TextureFormat::Rgba8888, false, None),
        upload(3, 32, 32, TextureFormat::Rgba8888, true, None),
    ]);
    assert_eq!(lg.select_smallest_containing_upload(need(30), need(30)), Some(1));
    assert_eq!(lg.select_smallest_containing_upload(need(33), need(10)), Some(0));
    assert_eq!(lg.select_smallest_containing_upload(UvNeed { extent: 33, integer_edge: true }, need(10)), Some(1));
    assert_eq!(lg.select_smallest_containing_upload(need(65), need(1)), None);
    assert_eq!(lg.select_upload_for_span(64, 64, need(1), need(1)), Some(0));
    assert_eq!(lg.select_upload_for_span(48, 48, need(1), need(1)), Some(1));
}

#[test]
fn tex_name_selection_rejects_uploads_that_cannot_hold_the_coordinates() {
    let lg = state("game", vec![
        upload(0, 128, 16, TextureFormat::A8, true, Some(8)),
        upload(1, 16, 16, TextureFormat::A8, true, Some(8)),
        upload(2, 16, 16, TextureFormat::A8, false, Some(8)),
    ]);
    assert_eq!(lg.select_upload_by_tex_name_containing(8, need(100), need(10)), None);
    assert_eq!(lg.select_upload_by_tex_name_containing(8, need(10), need(10)), Some(1));
    assert_eq!(lg.select_latest_containing_upload_with_tex_name(8, need(100), need(10)), Some(0));
    assert_eq!(lg.select_upload_for_span_with_tex_name(8, 128, 16, need(200), need(10)), Some(0));
    assert_eq!(lg.select_upload_for_span_with_tex_name(8, 20, 20, need(10), need(10)), Some(1));
    assert_eq!(lg.select_upload_for_span_with_tex_name(9, 16, 16, need(1), need(1)), None);
}

#[test]
fn generated_text_picks_a_font_atlas_of_whole_cells() {
    let lg = state("game", vec![
        upload(0, 128, 16, TextureFormat::A8, true, Some(3)),
        upload(1, 256, 16, TextureFormat::A8, true, Some(3)),
        upload(2, 256, 16, TextureFormat::Rgba8888, true, Some(4)),
    ]);
    assert_eq!(lg.select_upload_for_generated_text(8, 16, 8, 16), Some(1));
    // a span one texel short tries the next cell size
    assert_eq!(lg.select_upload_for_generated_text(7, 15, 8, 16), Some(1));
    assert_eq!(lg.select_upload_for_generated_text(5, 5, 8, 16), None);
    assert!(lg.is_font_atlas_for(3, 8, 16, need(8), need(16)));
    assert!(!lg.is_font_atlas_for(4, 256, 16, need(200), need(16)));
}

#[test]
fn popcap_board_prefers_rgb565_then_the_closest_size() {
    let uploads = vec![
        upload(0, 320, 240, TextureFormat::Rgba8888, true, None),
        upload(1, 512, 256, TextureFormat::Rgb565, true, None),
        upload(2, 320, 256, TextureFormat::Rgb565, true, None),
        upload(3, 100, 100, TextureFormat::Rgb565, true, None),
    ];
    let lg = state("44444", uploads.clone());
    assert_eq!(lg.select_popcap_surface_upload(0x16, 320, 240), Some(2));
    assert_eq!(lg.select_popcap_surface_upload(0x17, 320, 240), None);
    assert_eq!(lg.select_popcap_surface_upload(0x16, 300, 240), None);
    let other = state("game", uploads);
    assert_eq!(other.select_popcap_surface_upload(0x16, 320, 240), None);
}

#[test]
fn mspacman_splash_is_the_first_unnamed_fileless_512_by_256() {
    let uploads = vec![
        upload(0, 512, 256, TextureFormat::Rgb565, true, Some(1)),
        upload(1, 512, 256, TextureFormat::Rgb565, false, None),
        upload(2, 512, 256, TextureFormat::Rgb565, true, None),
        upload(3, 512, 256, TextureFormat::Rgb565, true, None),
    ];
    let lg = state("14004", uploads.clone());
    assert_eq!(lg.select_mspacman_initial_splash_upload(0x19), Some(2));
    assert_eq!(lg.select_mspacman_initial_splash_upload(0x18), None);
    assert_eq!(state("14005", uploads).select_mspacman_initial_splash_upload(0x19), None);
}

#[test]
fn ndc_titles_are_recognized_by_game_id() {
    assert!(state("1500C", vec![]).is_ndc_title());
    assert!(state("1500e", vec![]).is_ndc_title());
    assert!(state("50514", vec![]).is_ndc_title());
    assert!(!state("50515", vec![]).is_ndc_title());
}

#[test]
fn every_upload_stays_at_its_own_index() {
    let mut lg = LiveGlState::new(false, false, false, "game".to_string());
    lg.store_upload(0xde1, 2, 1, 0x1907, 0x8363, 0x1000_0010, &[0x00, 0xf8, 0x1f, 0x00], None);
    lg.note_bind_texture(4);
    lg.store_upload(0xde1, 1, 1, 0x1908, 0x1401, 0x1000_0020, &[1, 2, 3, 4], None);
    lg.copy_framebuffer_to_texture(9, 0, 0, 2, 2);
    lg.copy_framebuffer_to_texture(9, 0, 0, 4, 4);
    assert_eq!(lg.uploads.len(), 3);
    for (i, u) in lg.uploads.iter().enumerate() {
        assert_eq!(u.index, i);
    }
    assert_eq!(lg.uploads[2].width, 4);
    assert_eq!(lg.select_upload_by_tex_name(9), Some(2));
}

#[test]
fn pushed_text_chars_are_taken_back_in_order() {
    let mut lg = LiveGlState::new(false, false, false, "game".to_string());
    lg.record_text_char_push(9, 0x5a);
    lg.reset_for_frame();
    lg.record_text_char_push(5, 0x41);
    lg.record_text_char_push(5, 0x42);
    lg.record_text_char_push(6, 0x43);
    lg.record_text_char_push(5, 0x44);
    assert_eq!(lg.take_text_char_for_draw(5), Some(0x41));
    assert_eq!(lg.take_text_char_for_draw(6), Some(0x43));
    assert_eq!(lg.take_text_char_for_draw(5), Some(0x42));
    assert_eq!(lg.take_text_char_for_draw(5), Some(0x44));
    assert_eq!(lg.take_text_char_for_draw(5), None);
    assert_eq!(lg.take_text_char_for_draw(5), None);
    assert_eq!(lg.take_text_char_for_draw(9), None);
    lg.reset_text_char_consumption(5);
    assert_eq!(lg.take_text_char_for_draw(5), Some(0x41));
    assert_eq!(lg.take_text_char_for_draw(6), None);
}
