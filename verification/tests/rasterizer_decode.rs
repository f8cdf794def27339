use clicky_core::sys::eapp::rasterizer::{
    blend_src_over, decode_manifest_bmp, decode_manifest_ipd, decode_manifest_raw_rgb565,
    decode_manifest_texture, decode_manifest_tga, framebuffer_hash, Rgba8, Texture, TextureFormat,
};

#[test]
fn decode_rgba8888_preserves_channel_order() {
    let tex = Texture::from_bytes(
        &[0x11, 0x22, 0x33, 0x44],
        1,
        1,
        TextureFormat::Rgba8888,
        Rgba8::rgba(255, 255, 255, 255),
    );
    assert_eq!(tex.pixels[0], Rgba8::rgba(0x11, 0x22, 0x33, 0x44));
}

#[test]
fn manifest_ipd_decodes_rgb565_pixels() {
    let mut data = vec![0u8; 18];
    data[0..4].copy_from_slice(&1u32.to_le_bytes());
    data[4..8].copy_from_slice(&1u32.to_le_bytes());
    data[16..18].copy_from_slice(&0xf800u16.to_le_bytes());
    let decoded = decode_manifest_ipd(&data).expect("valid ipd");
    assert_eq!((decoded.width, decoded.height), (1, 1));
    assert_eq!(decoded.format, TextureFormat::Rgb565);
    assert_eq!(decoded.pixels[0], Rgba8::rgba(255, 0, 0, 255));
}

#[test]
fn manifest_tga_applies_magenta_colour_key() {
    let mut data = vec![0u8; 20];
    data[2] = 2;
    data[12..14].copy_from_slice(&1u16.to_le_bytes());
    data[14..16].copy_from_slice(&1u16.to_le_bytes());
    data[16] = 16;
    data[18..20].copy_from_slice(&0xf83eu16.to_le_bytes());
    let decoded = decode_manifest_tga(&data).expect("valid tga");
    assert_eq!(decoded.pixels[0].a, 0);
}

#[test]
fn manifest_bmp_recognizes_a8_coverage_palette() {
    let mut data = vec![0u8; 66];
    data[0..2].copy_from_slice(b"BM");
    data[10..14].copy_from_slice(&62u32.to_le_bytes());
    data[14..18].copy_from_slice(&40u32.to_le_bytes());
    data[18..22].copy_from_slice(&1i32.to_le_bytes());
    data[22..26].copy_from_slice(&1i32.to_le_bytes());
    data[26..28].copy_from_slice(&1u16.to_le_bytes());
    data[28..30].copy_from_slice(&8u16.to_le_bytes());
    data[46..50].copy_from_slice(&2u32.to_le_bytes());
    data[54..58].copy_from_slice(&[0, 0, 0, 0]);
    data[58..62].copy_from_slice(&[1, 1, 1, 0]);
    data[62] = 1;
    let decoded = decode_manifest_bmp(&data).expect("valid bmp");
    assert_eq!(decoded.format, TextureFormat::A8);
    assert_eq!(decoded.pixels[0], Rgba8::rgba(255, 255, 255, 1));
}

#[test]
fn manifest_texture_picks_decoder_by_extension() {
    let mut data = vec![0u8; 18];
    data[0..4].copy_from_slice(&1u32.to_le_bytes());
    data[4..8].copy_from_slice(&1u32.to_le_bytes());
    data[16..18].copy_from_slice(&0x07e0u16.to_le_bytes());
    let decoded = decode_manifest_texture("IPD", &data).expect("case-insensitive extension");
    assert_eq!(decoded.pixels[0], Rgba8::rgba(0, 255, 0, 255));
    assert!(decode_manifest_texture("png", &data).is_none());
}

#[test]
fn raw_rgb565_needs_a_square_or_screen_sized_payload() {
    let data = vec![0u8; 2 * 2 * 2];
    let decoded = decode_manifest_raw_rgb565(&data).expect("2x2 raw");
    assert_eq!((decoded.width, decoded.height), (2, 2));
    assert!(decode_manifest_raw_rgb565(&[0u8; 3]).is_none());
}

#[test]
fn opaque_source_replaces_and_transparent_source_keeps_destination() {
    let dst = Rgba8::rgba(10, 20, 30, 255);
    let src = Rgba8::rgba(200, 100, 50, 255);
    assert_eq!(blend_src_over(dst, src), src);
    assert_eq!(blend_src_over(dst, Rgba8::rgba(1, 2, 3, 0)), dst);
}

#[test]
fn framebuffer_hash_is_fnv1a_over_rgba_bytes() {
    assert_eq!(framebuffer_hash(&[]), 0xcbf29ce484222325);
    let mut h: u64 = 0xcbf29ce484222325;
    for b in [1u8, 2, 3, 4] {
        h = (h ^ b as u64).wrapping_mul(0x100000001b3);
    }
    assert_eq!(framebuffer_hash(&[Rgba8::rgba(1, 2, 3, 4)]), h);
}
