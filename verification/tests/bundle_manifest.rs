use clicky_core::sys::eapp::bundle::{manifest_relative_paths, manifest_texture_paths};
use clicky_core::sys::eapp::rasterizer::{parse_ppm_p6, ppm_bytes};
use clicky_core::sys::eapp::Rgba8;

#[test]
fn manifest_lists_path_strings_in_order() {
    let text = "<dict><key>Path</key>\n<string>Images\\title.ipd</string>\
                <key>Other</key><string>x</string>\
                <key>Path</key><string>Executables/game.bin</string></dict>";
    let paths = manifest_texture_paths(text).expect("paths");
    assert_eq!(paths, vec!["Images\\title.ipd".to_string(), "Executables/game.bin".to_string()]);
    assert_eq!(manifest_relative_paths(&paths), vec!["Images/title.ipd".to_string()]);
}

#[test]
fn manifest_without_entries_or_with_broken_entry_has_no_paths() {
    assert_eq!(manifest_texture_paths("<dict></dict>"), None);
    assert_eq!(manifest_texture_paths("<key>Path</key><string>unterminated"), None);
    assert_eq!(
        manifest_texture_paths("<key>Path</key><string>a</string><key>Path</key>"),
        None
    );
}

#[test]
fn ppm_written_image_reads_back_opaque() {
    let fb = vec![
        Rgba8::rgba(1, 2, 3, 4),
        Rgba8::rgba(5, 6, 7, 8),
        Rgba8::rgba(9, 10, 11, 0),
        Rgba8::rgba(12, 13, 14, 255),
        Rgba8::rgba(15, 16, 17, 1),
        Rgba8::rgba(18, 19, 20, 2),
    ];
    let bytes = ppm_bytes(&fb, 3, 2);
    assert!(bytes.starts_with(b"P6\n3 2\n255\n"));
    assert_eq!(bytes.len(), 11 + 18);
    let back = parse_ppm_p6(&bytes).expect("readable");
    let opaque: Vec<Rgba8> = fb.iter().map(|p| Rgba8::rgba(p.r, p.g, p.b, 255)).collect();
    assert_eq!(back, opaque);
}

#[test]
fn ppm_reader_skips_comments_and_rejects_short_payloads() {
    let mut bytes = b"P6\n# made by hand\n1 1\n255\n".to_vec();
    bytes.extend_from_slice(&[7, 8, 9]);
    assert_eq!(parse_ppm_p6(&bytes), Some(vec![Rgba8::rgba(7, 8, 9, 255)]));
    let short = b"P6\n2 2\n255\n\x01\x02".to_vec();
    assert_eq!(parse_ppm_p6(&short), None);
    assert_eq!(parse_ppm_p6(b"P5\n1 1\n255\n\x00"), None);
    assert_eq!(parse_ppm_p6(b"P6\nx 1\n255\n\x00\x00\x00"), None);
}

