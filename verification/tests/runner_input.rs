use clicky_core::sys::eapp::live_gl::{LiveArrayDef, LiveGlState};
use clicky_core::sys::eapp::runner::{
    active_input_script_entries, apply_input_script, array_summary, input_edge_events,
    input_event_id_mask, input_script_bits, input_state_bits, ordinal45_resource_format,
    ranges_overlap, upload_summary, EappInputState,
};
use clicky_core::sys::eapp::TextureFormat;

#[test]
fn resource_format_words_map_to_alpha_masks() {
    assert_eq!(ordinal45_resource_format(0x8808), Some(TextureFormat::A8));
    assert_eq!(ordinal45_resource_format(0x0801), Some(TextureFormat::A8));
    assert_eq!(ordinal45_resource_format(0x1234), None);
}

#[test]
fn overlap_saturates_at_the_top_of_memory() {
    assert!(ranges_overlap(0x100, 4, 0x102, 0x200));
    assert!(!ranges_overlap(0x100, 4, 0x104, 0x200));
    assert!(ranges_overlap(u32::MAX - 1, 16, u32::MAX - 1, u32::MAX));
    assert!(!ranges_overlap(0x300, 4, 0x100, 0x200));
}

#[test]
fn summaries_describe_arrays_and_uploads() {
    let def = LiveArrayDef {
        array_index: 1,
        component_count: 2,
        format: 0x140c,
        stride: 8,
        guest_ptr: 0x1400_0010,
        valid: true,
        material_epoch: 3,
    };
    assert_eq!(
        array_summary(Some(&def)),
        "idx=1 comps=2 fmt=0x140c stride=8 ptr=0x14000010 valid=true epoch=3"
    );
    assert_eq!(array_summary(None), "<none>");
    let upload = LiveGlState::build_upload(4, 0x0de1, 2, 2, 0x1907, 0x8363, 0, &[0; 8], None);
    assert_eq!(
        upload_summary(&upload),
        "upload=4 file=<unknown> file_off=<unknown> dim=2x2 format=Some(Rgb565) src_fmt=0x1907 pix_type=0x8363"
    );
    let odd = LiveGlState::build_upload(5, 0, 1, 1, 0xdead, 0xbeef, 0, &[], None);
    assert!(upload_summary(&odd).contains("format=None src_fmt=0xdead pix_type=0xbeef"));
}

#[test]
fn button_bits_follow_the_guest_layout() {
    let state = EappInputState { up: true, menu: true, ..Default::default() };
    assert_eq!(input_state_bits(&state), 0b10_0001);
    let none: Vec<(String, String)> = Vec::new();
    assert_eq!(input_event_id_mask(&state, &none), (1 << 1) | (1 << 5));
}

#[test]
fn input_script_entries_are_active_within_their_frames() {
    let script = " Menu:190-200, action : 5 - 9 ,,bits=0x40000001:190-195,bad,up:1-x";
    let at_192 = active_input_script_entries(script, 192);
    assert_eq!(
        at_192,
        vec![
            ("menu".to_string(), "190-200".to_string()),
            ("bits=0x40000001".to_string(), "190-195".to_string()),
        ]
    );
    let at_7 = active_input_script_entries(script, 7);
    assert_eq!(at_7, vec![("action".to_string(), "5 - 9".to_string())]);
    assert_eq!(input_script_bits(&at_192), 0x4000_0001);
    let mut state = EappInputState::default();
    apply_input_script(&mut state, &at_192);
    assert!(state.menu && !state.action && !state.up);
    apply_input_script(&mut state, &at_7);
    assert!(state.action);
}

#[test]
fn raw_masks_and_event_ids_parse_like_the_guest_tools() {
    let entries = vec![
        ("raw=4294967295".to_string(), "0-1".to_string()),
        ("event=3".to_string(), "0-1".to_string()),
        ("event=9".to_string(), "0-1".to_string()),
    ];
    assert_eq!(input_script_bits(&entries), u32::MAX);
    assert_eq!(input_event_id_mask(&EappInputState::default(), &entries), 1 << 3);
}

#[test]
fn edges_report_presses_then_releases_by_button() {
    assert_eq!(input_edge_events(0b0000_0110, 0b0000_1100), vec![(1, 2), (3, 1)]);
    assert!(input_edge_events(0b10, 0b10).is_empty());
}
