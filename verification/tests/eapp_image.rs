use clicky_core::sys::eapp::image::{c_string, parse_import_modules, read_u32_at, vma_to_offset};
use clicky_core::sys::eapp::{EappBuildError, EappImage, EappMetadata};
use std::path::PathBuf;

fn metadata() -> EappMetadata {
    EappMetadata {
        title: "Game".to_string(),
        bundle_dir: PathBuf::from("/bundle"),
        executable_path: PathBuf::from("/bundle/Executables/game.bin"),
    }
}

fn put_u32(image: &mut [u8], off: usize, v: u32) {
    image[off..off + 4].copy_from_slice(&v.to_le_bytes());
}

fn put_descriptor(image: &mut Vec<u8>, off: usize, name: &str, count: u32, next: u32) {
    if image.len() < off + 0x38 {
        image.resize(off + 0x38, 0);
    }
    image[off..off + name.len()].copy_from_slice(name.as_bytes());
    put_u32(image, off + 0x30, count);
    put_u32(image, off + 0x34, next);
}

fn invalid_message(err: EappBuildError) -> String {
    match err {
        EappBuildError::InvalidImage(m) => m,
        other => panic!("unexpected error {:?}", other),
    }
}

fn image_with_imports() -> Vec<u8> {
    let mut image = vec![0u8; 0x100];
    image[0..4].copy_from_slice(b"eapp");
    put_u32(&mut image, 0x04, 0x1800_0000);
    put_u32(&mut image, 0x08, 3);
    put_u32(&mut image, 0x0c, 0x28);
    put_u32(&mut image, 0x10, 0x1800_0040);
    put_u32(&mut image, 0x14, 0x1800_1000);
    put_u32(&mut image, 0x18, 0x1800_2000);
    put_u32(&mut image, 0x24, 0x1800_3000);
    put_descriptor(&mut image, 0x40, "OpenGLES", 2, 0x1800_0080);
    put_descriptor(&mut image, 0x80, "$$$$ a^n + b^n = c^n | n>2 $$$$", 0, 0);
    image
}

#[test]
fn parses_header_and_import_chain() {
    let img = EappImage::parse(metadata(), image_with_imports()).expect("valid image");
    assert_eq!(img.header.format_version, 3);
    assert_eq!(img.header.imports_addr, 0x1800_0040);
    assert_eq!(img.header.entry_addr, 0x1800_1000);
    assert_eq!(img.header.aux_addr, 0x1800_3000);
    assert_eq!(img.imports.len(), 1);
    let m = &img.imports[0];
    assert_eq!(m.name, "OpenGLES");
    assert_eq!(m.count, 2);
    assert_eq!(m.stubs_addr, 0x1800_0078);
    assert_eq!(m.literals_addr, 0x1800_0080);
    assert_eq!(img.metadata.title, "Game");
}

#[test]
fn rejects_short_files_and_missing_magic() {
    let err = EappImage::parse(metadata(), vec![0u8; 0x27]).unwrap_err();
    assert_eq!(invalid_message(err), "file too small for eapp header");
    let mut image = image_with_imports();
    image[0] = b'E';
    let err = EappImage::parse(metadata(), image).unwrap_err();
    assert_eq!(invalid_message(err), "missing eapp magic");
}

#[test]
fn rejects_descriptor_loops() {
    let mut image = image_with_imports();
    put_u32(&mut image, 0x40 + 0x34, 0x1800_0040);
    let err = parse_import_modules(&image, 0x1800_0040).unwrap_err();
    assert_eq!(invalid_message(err), "import descriptor loop at 0x18000040");
}

#[test]
fn rejects_addresses_outside_the_image_mapping() {
    let err = vma_to_offset(0x10).unwrap_err();
    assert_eq!(invalid_message(err), "address 0x00000010 is outside file VMA");
    assert_eq!(vma_to_offset(0x1800_0010).ok(), Some(0x10));
}

#[test]
fn rejects_truncated_descriptors() {
    let image = image_with_imports();
    let err = parse_import_modules(&image[..0x50], 0x1800_0040).unwrap_err();
    assert_eq!(invalid_message(err), "truncated import name");
    let err = parse_import_modules(&image[..0x70], 0x1800_0040).unwrap_err();
    assert_eq!(invalid_message(err), "truncated u32 at 0x70");
    assert!(parse_import_modules(&image, 0).unwrap().is_empty());
}

#[test]
fn reads_words_and_names() {
    let bytes = [0x78, 0x56, 0x34, 0x12, 0];
    assert_eq!(read_u32_at(&bytes, 0).ok(), Some(0x1234_5678));
    assert_eq!(invalid_message(read_u32_at(&bytes, 2).unwrap_err()), "truncated u32 at 0x2");
    assert_eq!(c_string(b"abc\0def").ok().as_deref(), Some("abc"));
    assert_eq!(c_string(b"xyz").ok().as_deref(), Some("xyz"));
    assert_eq!(invalid_message(c_string(&[0xff, 0xfe]).unwrap_err()), "non-utf8 import name");
}
