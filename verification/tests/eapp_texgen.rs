use clicky_core::sys::eapp::texgen::{
    best_texgen_candidate, guess_font_columns, is_plausible_texgen_char, is_texgen_text_object,
    texgen_cursor_probes, texgen_cursor_score, texgen_object_score, TEXGEN_STATE_TAG,
};

fn utf16_window(units: &[u16]) -> Vec<u8> {
    let mut out = vec![0u8; 32];
    for (i, u) in units.iter().enumerate() {
        out[2 * i] = (*u & 0xff) as u8;
        out[2 * i + 1] = (*u >> 8) as u8;
    }
    out
}

#[test]
fn plausible_chars_are_printable_latin1_or_greek() {
    assert!(is_plausible_texgen_char(0x41));
    assert!(is_plausible_texgen_char(0x20));
    assert!(!is_plausible_texgen_char(0x1f));
    assert!(!is_plausible_texgen_char(0x7f));
    assert!(is_plausible_texgen_char(0xa0));
    assert!(!is_plausible_texgen_char(0x9f));
    assert!(is_plausible_texgen_char(0x3a9));
    assert!(!is_plausible_texgen_char(0x400));
}

#[test]
fn cursor_score_counts_the_run_before_the_first_zero() {
    assert_eq!(texgen_cursor_score(&utf16_window(&[0x48, 0x69])), Some((4, 2)));
    assert_eq!(texgen_cursor_score(&utf16_window(&[0x48])), None);
    assert_eq!(texgen_cursor_score(&utf16_window(&[0, 0x48, 0x69])), None);
    assert_eq!(texgen_cursor_score(&utf16_window(&[0x41, 0x01, 0x42])), Some((2, 2)));
    assert_eq!(texgen_cursor_score(&utf16_window(&[0x3a9, 0x61])), Some((3, 2)));
    assert_eq!(texgen_cursor_score(&utf16_window(&[0x01, 0x41, 0x42])), None);
    assert_eq!(texgen_cursor_score(&utf16_window(&[0x41, 0x42, 0, 0x43])), Some((4, 2)));
    assert_eq!(texgen_cursor_score(&[]), None);
}

#[test]
fn font_columns_take_the_most_frequent_then_the_larger() {
    assert_eq!(guess_font_columns(&[8, 64, 64, 40, 40, 300, 300, 300]), Some(64));
    assert_eq!(guess_font_columns(&[40, 40, 40, 64, 64]), Some(40));
    assert_eq!(guess_font_columns(&[10, 10, 10]), None);
    assert_eq!(guess_font_columns(&[256, 256, 257, 257]), Some(256));
    assert_eq!(guess_font_columns(&[48]), None);
    assert_eq!(guess_font_columns(&[]), None);
}

#[test]
fn text_objects_need_a_tagged_state_and_a_glyph_table() {
    let ptr = 0x1000_0100;
    let font = Some(0x1000_0200);
    let state = Some(0x1000_0300);
    let tag = Some(TEXGEN_STATE_TAG);
    let table = Some(0x1000_0400);
    assert!(is_texgen_text_object(ptr, font, state, None, tag, table));
    assert!(is_texgen_text_object(ptr, font, state, Some(0x1000_0300), tag, table));
    assert!(!is_texgen_text_object(ptr, font, state, Some(0x1000_0304), tag, table));
    assert!(!is_texgen_text_object(ptr, font, state, None, None, table));
    assert!(!is_texgen_text_object(ptr, font, state, None, tag, Some(0)));
    assert!(!is_texgen_text_object(ptr, Some(0x2000_0000), state, None, tag, table));
    assert!(!is_texgen_text_object(0, font, state, None, tag, table));
}

#[test]
fn object_score_counts_sub_pointers_into_work_ram() {
    let subs = [Some(0x1000_0100), Some(0x1000_0000), None, Some(0x2000_0000), Some(0x13ff_fffc)];
    assert_eq!(texgen_object_score(0x1000_0100, &subs), 2);
    assert_eq!(texgen_object_score(0x1000_0100, &[]), 0);
}

#[test]
fn best_candidate_is_the_first_highest_score() {
    assert_eq!(best_texgen_candidate(&[(1, 0), (2, 3), (3, 3), (4, 1)]), Some(2));
    assert_eq!(best_texgen_candidate(&[(7, 0)]), Some(7));
    assert_eq!(best_texgen_candidate(&[]), None);
}

#[test]
fn cursor_probes_skip_the_object_odd_and_outside_addresses() {
    assert_eq!(
        texgen_cursor_probes(0x1000_0000, 0x1000_0004),
        vec![0x1000_0000, 0x1000_0002, 0x1000_0006, 0x1000_0008, 0x1000_000c, 0x1000_0010]
    );
    assert_eq!(texgen_cursor_probes(0x1000_0001, 0), Vec::<u32>::new());
    assert_eq!(texgen_cursor_probes(0x1000_0004, 0x1000_0004), Vec::<u32>::new());
    assert_eq!(texgen_cursor_probes(0x13ff_fffe, 0), vec![0x13ff_fffe]);
    assert_eq!(texgen_cursor_probes(0, 0x1000_0000), Vec::<u32>::new());
}
