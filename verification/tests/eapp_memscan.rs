use clicky_core::sys::eapp::memscan::{
    delim_end, field_end, framebuffer_hint, large_regions_by_size, nonzero_regions, pattern_hits, pointer_refs,
    region_sample, FramebufferHint,
};

#[test]
fn pattern_hits_are_ascending_and_limited() {
    let buf = b"xxMENUyyMENUzzMENU";
    assert_eq!(pattern_hits(buf, b"MENU", 8), vec![2, 8, 14]);
    assert_eq!(pattern_hits(buf, b"MENU", 2), vec![2, 8]);
    assert_eq!(pattern_hits(buf, b"MENU", 0), vec![2]);
    assert_eq!(pattern_hits(buf, b"", 8), Vec::<usize>::new());
    assert_eq!(pattern_hits(b"aaa", b"aa", 8), vec![0, 1]);
    assert_eq!(pattern_hits(b"a", b"aa", 8), Vec::<usize>::new());
}

#[test]
fn nonzero_blocks_form_regions() {
    let mut buf = vec![0u8; 16];
    buf[1] = 1;
    buf[5] = 2;
    buf[13] = 3;
    assert_eq!(nonzero_regions(&buf, 4), vec![(0, 8), (12, 4)]);
    assert_eq!(nonzero_regions(&[0u8; 8], 4), Vec::<(usize, usize)>::new());
}

#[test]
fn large_regions_sort_longest_first_and_stably() {
    let regions = vec![(0, 2048), (4096, 512), (8192, 4096), (16384, 2048)];
    assert_eq!(large_regions_by_size(&regions, 1024), vec![(8192, 4096), (0, 2048), (16384, 2048)]);
    assert_eq!(framebuffer_hint(153600), Some(FramebufferHint::Rgb565));
    assert_eq!(framebuffer_hint(76800), Some(FramebufferHint::A8));
    assert_eq!(framebuffer_hint(100), None);
}

#[test]
fn region_samples_skip_zero_words() {
    let mut buf = vec![0u8; 32];
    buf[4] = 1;
    buf[12] = 2;
    buf[16] = 3;
    buf[20] = 4;
    buf[28] = 5;
    assert_eq!(region_sample(&buf, 0, 32), vec![1, 2, 3, 4]);
    assert_eq!(region_sample(&buf, 0, 8), vec![1]);
}

#[test]
fn string_table_fields_and_pointers() {
    // "ID\tAB\n" in UTF-16BE.
    let buf = [0, b'I', 0, b'D', 0, b'\t', 0, b'A', 0, b'B', 0, b'\n'];
    assert_eq!(field_end(&buf, 0), Some(4));
    assert_eq!(field_end(&buf, 6), Some(10));
    assert_eq!(delim_end(&buf, 0, b'\n'), Some(10));
    assert_eq!(delim_end(&buf, 11, b'\n'), None);
    let words = [0x10u8, 0, 0, 0x10, 0, 0, 0, 0, 0x20, 0, 0, 0x10];
    assert_eq!(pointer_refs(&words, 0x1000_0000, 0x1000_0100, 16), vec![(0, 0x1000_0010), (8, 0x1000_0020)]);
    assert_eq!(pointer_refs(&words, 0x1000_0000, 0x1000_0100, 1), vec![(0, 0x1000_0010)]);
}
