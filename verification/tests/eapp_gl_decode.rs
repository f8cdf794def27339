use clicky_core::sys::eapp::live_gl::flip_vertical_in_place;
use clicky_core::sys::eapp::{format_from_gl, pix_payload_size, Rgba8, Texture, TextureFormat};

/// Slice the pixel payload out of a raw .pix file using the captured offset
/// and the upload-derived dimensions/format.
fn extract_pix_payload(
    file_bytes: &[u8],
    payload_offset: usize,
    width: usize,
    height: usize,
    format: TextureFormat,
) -> Result<Vec<u8>, String> {
    let payload_size = pix_payload_size(format, width, height);
    let end = payload_offset.checked_add(payload_size).ok_or_else(|| {
        format!("payload size overflow: offset={payload_offset} size={payload_size}")
    })?;
    if end > file_bytes.len() {
        return Err(format!(
            "payload bounds exceed file: offset={payload_offset} size={payload_size} file_len={}",
            file_bytes.len()
        ));
    }
    Ok(file_bytes[payload_offset..end].to_vec())
}

#[derive(Debug, Clone)]
struct ProposedTexture {
    label: &'static str,
    kind: &'static str,
    width: Option<usize>,
    height: Option<usize>,
    format: TextureFormat,
    confidence: f32,
    unresolved_note: Option<&'static str>,
}

impl ProposedTexture {
    fn unresolved(
        label: &'static str,
        note: &'static str,
        format: TextureFormat,
        confidence: f32,
    ) -> Self {
        Self {
            label,
            kind: "unresolved",
            width: None,
            height: None,
            format,
            confidence,
            unresolved_note: Some(note),
        }
    }
}

#[derive(Debug, Clone)]
struct DrawReplay {
    ordinal159_handle: u32,
    state_ptr: u32,
    translation: (f32, f32),
    local_positions: [(f32, f32); 4],
    uv_or_aux: Vec<(f32, f32)>,
    aux_array: Option<Vec<(f32, f32)>>,
    screen_bounds: (f32, f32, f32, f32),
    proposed_texture: ProposedTexture,
    texture: Texture,
    coverage: u64,
}

fn bounds_for_positions(positions: &[(f32, f32); 4]) -> (f32, f32, f32, f32) {
    positions.iter().fold(
        (
            f32::INFINITY,
            f32::INFINITY,
            f32::NEG_INFINITY,
            f32::NEG_INFINITY,
        ),
        |acc, (x, y)| (acc.0.min(*x), acc.1.min(*y), acc.2.max(*x), acc.3.max(*y)),
    )
}

fn flip_positions_vertical_per_vertex(
    positions: &[(f32, f32); 4],
    framebuffer_height: usize,
) -> [(f32, f32); 4] {
    let height = framebuffer_height as f32;
    [
        (positions[0].0, height - positions[0].1),
        (positions[1].0, height - positions[1].1),
        (positions[2].0, height - positions[2].1),
        (positions[3].0, height - positions[3].1),
    ]
}

fn flip_positions_vertical_rectangle_aware(
    draw: &DrawReplay,
    framebuffer_height: usize,
) -> [(f32, f32); 4] {
    let delta = framebuffer_height as f32 - (draw.screen_bounds.1 + draw.screen_bounds.3);
    [
        (draw.local_positions[0].0, draw.local_positions[0].1 + delta),
        (draw.local_positions[1].0, draw.local_positions[1].1 + delta),
        (draw.local_positions[2].0, draw.local_positions[2].1 + delta),
        (draw.local_positions[3].0, draw.local_positions[3].1 + delta),
    ]
}

fn screen_bounds_after_vertical_flip(
    bounds: (f32, f32, f32, f32),
    framebuffer_height: usize,
) -> (f32, f32, f32, f32) {
    let height = framebuffer_height as f32;
    (bounds.0, height - bounds.3, bounds.2, height - bounds.1)
}

#[test]
fn pix_payload_size_matches_format_dimensions() {
    assert_eq!(
        pix_payload_size(TextureFormat::Rgb565, 320, 240),
        320 * 240 * 2
    );
    assert_eq!(
        pix_payload_size(TextureFormat::Rgba5551, 50, 50),
        50 * 50 * 2
    );
    assert_eq!(
        pix_payload_size(TextureFormat::Rgba4444, 250, 162),
        250 * 162 * 2
    );
    assert_eq!(
        pix_payload_size(TextureFormat::Rgba8888, 40, 20),
        40 * 20 * 4
    );
    assert_eq!(
        pix_payload_size(TextureFormat::LuminanceAlpha88, 12, 34),
        12 * 34 * 2
    );
    assert_eq!(pix_payload_size(TextureFormat::A8, 784, 20), 784 * 20);
}

#[test]
fn format_from_gl_maps_captured_upload_constants() {
    assert_eq!(format_from_gl(0x1907, 0x8363), Some(TextureFormat::Rgb565));
    assert_eq!(
        format_from_gl(0x1908, 0x8034),
        Some(TextureFormat::Rgba5551)
    );
    assert_eq!(
        format_from_gl(0x1908, 0x8033),
        Some(TextureFormat::Rgba4444)
    );
    assert_eq!(
        format_from_gl(0x1908, 0x1401),
        Some(TextureFormat::Rgba8888)
    );
    assert_eq!(
        format_from_gl(0x190a, 0x1401),
        Some(TextureFormat::LuminanceAlpha88)
    );
    assert_eq!(format_from_gl(0x1906, 0x1401), Some(TextureFormat::A8));
    assert_eq!(format_from_gl(0xdead, 0xbeef), None);
}

#[test]
fn extract_pix_payload_slices_validated_region() {
    let mut file = Vec::new();
    file.extend_from_slice(&[0u8; 12]);
    file.extend_from_slice(&[0x00, 0xf8, 0xe0, 0x07, 0x1f, 0x00]);
    file.extend_from_slice(&[0xff, 0xff, 0xff, 0xff]);

    let payload =
        extract_pix_payload(&file, 12, 3, 1, TextureFormat::Rgb565).expect("valid region");
    assert_eq!(payload, vec![0x00, 0xf8, 0xe0, 0x07, 0x1f, 0x00]);
}

#[test]
fn extract_pix_payload_rejects_short_files() {
    let file = vec![0u8; 70 + 10];
    let err =
        extract_pix_payload(&file, 70, 50, 50, TextureFormat::Rgba5551).expect_err("should reject");
    assert!(err.contains("payload bounds exceed file"), "{}", err);
    assert!(err.contains("file_len=80"));
}

#[test]
fn extract_pix_payload_handles_zero_dimensions() {
    let file = vec![0u8; 8];
    let payload =
        extract_pix_payload(&file, 4, 0, 0, TextureFormat::A8).expect("zero-sized payload");
    assert!(payload.is_empty());
}

#[test]
fn screen_space_origin_and_serialization_flips_are_separate_from_texture_orientation() {
    let mut current_fb = vec![Rgba8::rgba(0, 0, 0, 0); 4 * 6];
    current_fb[0] = Rgba8::rgba(255, 0, 0, 255);
    current_fb[1] = Rgba8::rgba(0, 255, 0, 255);
    current_fb[4 * 5] = Rgba8::rgba(0, 0, 255, 255);
    current_fb[4 * 5 + 1] = Rgba8::rgba(255, 255, 255, 255);

    let mut presentation_fb = current_fb.clone();
    flip_vertical_in_place(&mut presentation_fb, 4, 6);
    assert_eq!(presentation_fb[0], Rgba8::rgba(0, 0, 255, 255));
    assert_eq!(presentation_fb[1], Rgba8::rgba(255, 255, 255, 255));
    assert_eq!(presentation_fb[4 * 5], Rgba8::rgba(255, 0, 0, 255));
    assert_eq!(presentation_fb[4 * 5 + 1], Rgba8::rgba(0, 255, 0, 255));

    let quad = [(0.5, 0.5), (0.5, 2.5), (2.5, 2.5), (2.5, 0.5)];
    let draw = DrawReplay {
        ordinal159_handle: 1,
        state_ptr: 2,
        translation: (0.0, 0.0),
        local_positions: quad,
        uv_or_aux: vec![(0.5, 0.5); 4],
        aux_array: None,
        screen_bounds: bounds_for_positions(&quad),
        proposed_texture: ProposedTexture::unresolved(
            "screen-space probe",
            "screen-space probe",
            TextureFormat::Rgb565,
            1.0,
        ),
        texture: Texture::from_bytes(
            &[0x00, 0xf8],
            1,
            1,
            TextureFormat::Rgb565,
            Rgba8::rgba(255, 255, 255, 255),
        ),
        coverage: 0,
    };
    assert_eq!(draw.ordinal159_handle, 1);
    assert_eq!(draw.state_ptr, 2);
    assert_eq!(draw.translation, (0.0, 0.0));
    assert_eq!(draw.uv_or_aux.len(), 4);
    assert!(draw.aux_array.is_none());
    assert_eq!(draw.proposed_texture.kind, "unresolved");
    assert_eq!(draw.proposed_texture.label, "screen-space probe");
    assert!(draw.proposed_texture.width.is_none() && draw.proposed_texture.height.is_none());
    assert_eq!(draw.proposed_texture.format, TextureFormat::Rgb565);
    assert_eq!(draw.proposed_texture.confidence, 1.0);
    assert!(draw.proposed_texture.unresolved_note.is_some());
    assert_eq!(draw.texture.pixels[0], Rgba8::rgba(255, 0, 0, 255));
    assert_eq!(draw.coverage, 0);

    let per_vertex_positions = flip_positions_vertical_per_vertex(&draw.local_positions, 6);
    let rect_aware_positions = flip_positions_vertical_rectangle_aware(&draw, 6);
    assert_ne!(per_vertex_positions, rect_aware_positions);
    assert_eq!(
        bounds_for_positions(&per_vertex_positions),
        bounds_for_positions(&rect_aware_positions)
    );
    assert_eq!(
        screen_bounds_after_vertical_flip(draw.screen_bounds, 6),
        bounds_for_positions(&per_vertex_positions)
    );
}

#[test]
fn flipping_twice_restores_the_framebuffer() {
    let mut fb: Vec<Rgba8> = (0..35u8).map(|i| Rgba8::rgba(i, 2 * i, 3 * i, 255)).collect();
    let original = fb.clone();
    flip_vertical_in_place(&mut fb, 5, 7);
    assert_ne!(fb, original);
    assert_eq!(fb[0], original[30]);
    assert_eq!(fb[17], original[17]);
    flip_vertical_in_place(&mut fb, 5, 7);
    assert_eq!(fb, original);
}

#[test]
fn flipping_leaves_trailing_pixels_and_single_rows_alone() {
    let mut fb: Vec<Rgba8> = (0..7u8).map(|i| Rgba8::rgba(i, 0, 0, 255)).collect();
    flip_vertical_in_place(&mut fb, 3, 2);
    assert_eq!(fb[0], Rgba8::rgba(3, 0, 0, 255));
    assert_eq!(fb[3], Rgba8::rgba(0, 0, 0, 255));
    assert_eq!(fb[6], Rgba8::rgba(6, 0, 0, 255));
    let before = fb.clone();
    flip_vertical_in_place(&mut fb, 7, 1);
    assert_eq!(fb, before);
}
