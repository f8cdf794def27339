use clicky_core::sys::eapp::live_gl::{texture_extent_contains, UvNeed};
use clicky_core::sys::eapp::LiveGlState;

// Texel-centred UVs as the guest submits them become the integer inputs
// the selectors take: the rounded span, and for each axis the texture
// extent the far edge needs and whether that edge is a whole coordinate.

fn uv_extents(uvs: &[(f32, f32)]) -> (f32, f32, f32, f32) {
    uvs.iter().fold(
        (f32::INFINITY, f32::INFINITY, f32::NEG_INFINITY, f32::NEG_INFINITY),
        |acc, (u, v)| (acc.0.min(*u), acc.1.min(*v), acc.2.max(*u), acc.3.max(*v)),
    )
}

fn needed_extent(max_coord: f32) -> usize {
    (max_coord - 0.5).ceil().max(1.0) as usize
}

fn need(extent: usize, max_coord: f32) -> UvNeed {
    UvNeed { extent, integer_edge: max_coord.is_finite() && (max_coord - max_coord.round()).abs() <= 0.001 }
}

struct UvArgs {
    span_w: usize,
    span_h: usize,
    need_u: UvNeed,
    need_v: UvNeed,
}

fn uv_args(uvs: &[(f32, f32)]) -> UvArgs {
    let (min_u, min_v, max_u, max_v) = uv_extents(uvs);
    UvArgs {
        span_w: (max_u - min_u).round().max(1.0) as usize,
        span_h: (max_v - min_v).round().max(1.0) as usize,
        need_u: need(needed_extent(max_u), max_u),
        need_v: need(needed_extent(max_v), max_v),
    }
}

fn for_uvs(lg: &LiveGlState, uvs: &[(f32, f32)]) -> Option<usize> {
    let a = uv_args(uvs);
    lg.select_upload_for_span(a.span_w, a.span_h, a.need_u, a.need_v)
}

fn for_uvs_with_tex_name(lg: &LiveGlState, tex_name: u32, uvs: &[(f32, f32)]) -> Option<usize> {
    let a = uv_args(uvs);
    lg.select_upload_for_span_with_tex_name(tex_name, a.span_w, a.span_h, a.need_u, a.need_v)
}

fn by_tex_name_containing(lg: &LiveGlState, tex_name: u32, uvs: &[(f32, f32)]) -> Option<usize> {
    let a = uv_args(uvs);
    lg.select_upload_by_tex_name_containing(tex_name, a.need_u, a.need_v)
}

fn generated_text(lg: &LiveGlState, uvs: &[(f32, f32)]) -> Option<usize> {
    let a = uv_args(uvs);
    lg.select_upload_for_generated_text(a.span_w, a.span_h, a.need_u.extent, a.need_v.extent)
}

fn font_atlas_for(lg: &LiveGlState, tex_name: u32, uvs: &[(f32, f32)]) -> bool {
    let a = uv_args(uvs);
    lg.is_font_atlas_for(tex_name, a.span_w, a.span_h, a.need_u, a.need_v)
}

fn popcap(lg: &LiveGlState, handle: u32, uvs: &[(f32, f32)]) -> Option<usize> {
    let a = uv_args(uvs);
    lg.select_popcap_surface_upload(handle, a.span_w, a.span_h)
}

fn uses_ndc_coordinates(lg: &LiveGlState, positions: &[(f32, f32)]) -> bool {
    lg.is_ndc_title() && positions.iter().all(|(x, y)| *x >= 0.0 && *y >= 0.0 && *x < 2.0 && *y < 2.0)
}

#[test]
fn uv_containment_allows_only_one_integer_edge_overrun() {
    assert!(texture_extent_contains(256, need(257, 257.0)));
    assert!(!texture_extent_contains(256, need(258, 258.0)));
    assert!(!texture_extent_contains(256, need(257, 257.25)));
}

#[test]
fn tex_name_uv_match_accepts_mspacman_maze_edge_convention() {
    let mut lg = LiveGlState::new(true, false, false, "14004".to_string());
    lg.uploads.push(LiveGlState::build_upload(
        0, 0x0de1, 256, 256, 0x1908, 0x8034, 0x1000_0000, &vec![0u8; 256 * 256 * 2], Some(0x0f),
    ));
    let maze_uvs = [(0.0, 38.0), (196.0, 38.0), (0.0, 257.0), (196.0, 257.0)];
    assert_eq!(for_uvs_with_tex_name(&lg, 0x0f, &maze_uvs), Some(0));
}

#[test]
fn select_upload_for_uvs_uses_smallest_containing_atlas_when_span_is_subrect() {
    let mut lg = LiveGlState::new(true, false, false, "test".to_string());
    lg.uploads.push(LiveGlState::build_upload(
        0, 0x0de1, 980, 24, 0x1906, 0x1401, 0x1000_0000, &vec![0xff; 980 * 24], None,
    ));
    lg.uploads.push(LiveGlState::build_upload(
        1, 0x0de1, 320, 99, 0x1906, 0x1401, 0x1000_0010, &vec![0xff; 320 * 99], None,
    ));
    let menu_strip_uvs = [(0.5, 37.5), (0.5, 3.5), (308.5, 3.5), (308.5, 37.5)];
    assert_eq!(for_uvs(&lg, &menu_strip_uvs), Some(1));
}

#[test]
fn popcap_surface_upload_allows_zuma_edge_clamp_and_prefers_rgb565() {
    let full_surface_uvs = [(1.0, 1.0), (1.0, 241.0), (321.0, 241.0), (321.0, 1.0)];

    let mut zuma = LiveGlState::new(true, false, false, "44444".to_string());
    zuma.uploads.push(LiveGlState::build_upload(
        0, 0x0de1, 322, 222, 0x1908, 0x8033, 0x1000_0000, &vec![0; 322 * 222 * 2], Some(0x2),
    ));
    zuma.uploads.push(LiveGlState::build_upload(
        1, 0x0de1, 510, 212, 0x1908, 0x8033, 0x1000_0010, &vec![0; 510 * 212 * 2], Some(0x5),
    ));
    assert_eq!(popcap(&zuma, 0x16, &full_surface_uvs), Some(0));
    assert_eq!(popcap(&zuma, 0x10, &full_surface_uvs), None);

    let mut bejeweled = LiveGlState::new(true, false, false, "55555".to_string());
    bejeweled.uploads.push(LiveGlState::build_upload(
        0, 0x0de1, 509, 340, 0x1908, 0x8033, 0x1000_0000, &vec![0; 509 * 340 * 2], Some(0x1),
    ));
    bejeweled.uploads.push(LiveGlState::build_upload(
        1, 0x0de1, 322, 242, 0x1907, 0x8363, 0x1000_0010, &vec![0; 322 * 242 * 2], Some(0x7),
    ));
    assert_eq!(popcap(&bejeweled, 0x16, &full_surface_uvs), Some(1));

    let almost_full = [(1.0, 1.0), (1.0, 240.0), (321.0, 240.0), (321.0, 1.0)];
    assert_eq!(popcap(&zuma, 0x16, &almost_full), None);
}

#[test]
fn tex_name_match_must_contain_uvs_before_it_wins() {
    let mut lg = LiveGlState::new(true, false, false, "test".to_string());
    lg.uploads.push(LiveGlState::build_upload(
        0, 0x0de1, 320, 99, 0x1906, 0x1401, 0x1000_0000, &vec![0xff; 320 * 99], Some(0x8),
    ));
    lg.uploads.push(LiveGlState::build_upload(
        1, 0x0de1, 1568, 32, 0x1906, 0x1401, 0x1000_0010, &vec![0xff; 1568 * 32], Some(0x8),
    ));
    let menu_strip_uvs = [(0.5, 60.5), (0.5, 39.5), (310.5, 39.5), (310.5, 60.5)];
    assert_eq!(lg.select_upload_by_tex_name(0x8), Some(1));
    assert_eq!(by_tex_name_containing(&lg, 0x8, &menu_strip_uvs), None);
    assert_eq!(
        by_tex_name_containing(&lg, 0x8, &menu_strip_uvs)
            .or_else(|| for_uvs_with_tex_name(&lg, 0x8, &menu_strip_uvs))
            .or_else(|| for_uvs(&lg, &menu_strip_uvs)),
        Some(0)
    );
}

#[test]
fn same_tex_name_uv_fallback_prefers_latest_reload() {
    let mut lg = LiveGlState::new(true, false, false, "test".to_string());
    lg.uploads.push(LiveGlState::build_upload(
        0, 0x0de1, 320, 240, 0x1908, 0x8034, 0x1000_0000, &vec![0; 320 * 240 * 2], Some(0x0b),
    ));
    lg.uploads.push(LiveGlState::build_upload(
        1, 0x0de1, 510, 404, 0x1908, 0x8034, 0x1000_0010, &vec![0; 510 * 404 * 2], Some(0x0b),
    ));
    let uvs = [(0.0, 124.0), (120.0, 124.0), (120.0, 197.0), (0.0, 197.0)];
    assert_eq!(for_uvs_with_tex_name(&lg, 0x0b, &uvs), Some(1));
}

#[test]
fn same_tex_name_uv_fallback_beats_unrelated_exact_dimensions() {
    let mut lg = LiveGlState::new(true, false, false, "test".to_string());
    lg.uploads.push(LiveGlState::build_upload(
        0, 0x0de1, 50, 50, 0x1908, 0x8034, 0x1000_0000, &vec![0xff; 50 * 50 * 2], Some(0x1b),
    ));
    lg.uploads.push(LiveGlState::build_upload(
        1, 0x0de1, 52, 100, 0x1906, 0x1401, 0x1000_1000, &vec![0xff; 52 * 100], Some(0x8),
    ));
    lg.uploads.push(LiveGlState::build_upload(
        2, 0x0de1, 1568, 32, 0x1906, 0x1401, 0x1000_2000, &vec![0xff; 1568 * 32], Some(0x8),
    ));
    let uvs = [(0.5, 49.5), (0.5, -0.5), (50.5, -0.5), (50.5, 49.5)];
    assert_eq!(for_uvs(&lg, &uvs), Some(0));
    assert_eq!(
        by_tex_name_containing(&lg, 0x8, &uvs)
            .or_else(|| for_uvs_with_tex_name(&lg, 0x8, &uvs))
            .or_else(|| for_uvs(&lg, &uvs)),
        Some(1)
    );
}

#[test]
fn generated_text_uvs_prefer_matching_font_cell_atlas() {
    let mut lg = LiveGlState::new(true, false, false, "test".to_string());
    lg.uploads.push(LiveGlState::build_upload(
        0, 0x0de1, 36, 20, 0x1906, 0x1401, 0x1000_0000, &vec![0xff; 36 * 20], None,
    ));
    lg.uploads.push(LiveGlState::build_upload(
        1, 0x0de1, 32, 32, 0x1906, 0x1401, 0x1000_0800, &vec![0xff; 32 * 32], None,
    ));
    lg.uploads.push(LiveGlState::build_upload(
        2, 0x0de1, 784, 20, 0x1906, 0x1401, 0x1000_1000, &vec![0xff; 784 * 20], None,
    ));
    lg.uploads.push(LiveGlState::build_upload(
        3, 0x0de1, 1568, 32, 0x1906, 0x1401, 0x1000_2000, &vec![0xff; 1568 * 32], None,
    ));
    let glyph_16_uvs = [(400.5, 15.5), (400.5, 0.5), (415.5, 0.5), (415.5, 15.5)];
    assert_eq!(generated_text(&lg, &glyph_16_uvs), Some(3));
}

#[test]
fn generated_text_uvs_prefer_exact_measured_cell_over_later_font_atlas() {
    let mut lg = LiveGlState::new(true, false, false, "test".to_string());
    lg.uploads.push(LiveGlState::build_upload(
        0, 0x0de1, 784, 20, 0x1906, 0x1401, 0x1000_0000, &vec![0xff; 784 * 20], Some(0x8),
    ));
    lg.uploads.push(LiveGlState::build_upload(
        1, 0x0de1, 1568, 32, 0x1906, 0x1401, 0x1000_0010, &vec![0xff; 1568 * 32], Some(0x8),
    ));
    let glyph_8x10_uvs = [(416.5, 9.5), (416.5, -0.5), (424.5, -0.5), (424.5, 9.5)];
    assert_eq!(generated_text(&lg, &glyph_8x10_uvs), Some(0));
    assert!(font_atlas_for(&lg, 0x8, &glyph_8x10_uvs));

    lg.uploads.push(LiveGlState::build_upload(
        2, 0x0de1, 172, 170, 0x1906, 0x1401, 0x1000_0020, &vec![0xff; 172 * 170], Some(0x8),
    ));
    let spinner_uvs = [(0.5, 169.5), (0.5, -0.5), (172.5, -0.5), (172.5, 169.5)];
    assert!(!font_atlas_for(&lg, 0x8, &spinner_uvs));
}

#[test]
fn ndc_detection_is_scoped_to_normalized_engine_bundles() {
    let ndc_positions = [(0.0, 0.0), (0.0, 1.0), (1.0, 1.0), (1.0, 0.0)];
    let tetris_offscreen_positions = [(-11.0, -11.0), (-11.0, 0.0), (0.0, 0.0), (0.0, -11.0)];

    let sudoku = LiveGlState::new(true, false, false, "50513".to_string());
    assert!(uses_ndc_coordinates(&sudoku, &ndc_positions));

    let bowling = LiveGlState::new(true, false, false, "1500C".to_string());
    assert!(uses_ndc_coordinates(&bowling, &ndc_positions));
    let bowling_runtime_id = LiveGlState::new(true, false, false, "1500c".to_string());
    assert!(uses_ndc_coordinates(&bowling_runtime_id, &ndc_positions));

    let pool = LiveGlState::new(true, false, false, "1500E".to_string());
    assert!(uses_ndc_coordinates(&pool, &ndc_positions));

    let solitaire = LiveGlState::new(true, false, false, "50514".to_string());
    assert!(uses_ndc_coordinates(&solitaire, &ndc_positions));

    let tetris = LiveGlState::new(true, false, false, "66666".to_string());
    assert!(!uses_ndc_coordinates(&tetris, &tetris_offscreen_positions));
    assert!(!uses_ndc_coordinates(&tetris, &ndc_positions));
}
