use clicky_core::sys::eapp::binding::{
    async_start_complete_due, host_event_word, vortex_step_patch, StepPatch, WordWrite, HOST_EVENT_PC,
};

const NONE: StepPatch = StepPatch { r0: None, r1: None, r4: None, write: None };

#[test]
fn vortex_block_copies_get_the_surface_buffer() {
    let p = vortex_step_patch(0x1801_4d54, 0x10, 0, 0, 0, 0x1000_4000, 0, 0, 0);
    assert_eq!(p, StepPatch { r0: Some(0x1000_4000), ..NONE });
    assert_eq!(vortex_step_patch(0x1801_1290, 0x1000_0000, 0, 0, 0, 0x1000_4000, 0, 0, 0), NONE);
    assert_eq!(vortex_step_patch(0x1801_1290, 0x10, 0, 0, 0, 0, 0, 0, 0), NONE);
}

#[test]
fn vortex_object_loads_fill_a_null_r4() {
    assert_eq!(vortex_step_patch(0x1801_3e04, 0, 0, 0, 0, 0, 0x1000_5000, 0, 0), StepPatch { r4: Some(0x1000_5000), ..NONE });
    assert_eq!(vortex_step_patch(0x1801_8aec, 0, 0, 0, 8, 0, 0x1000_5000, 0, 0), NONE);
}

#[test]
fn vortex_state_initializers_point_at_the_state_block() {
    let p = vortex_step_patch(0x1800_ab10, 0x5, 0x6, 0, 0x1000_0100, 0, 0, 0x1000_6000, 0);
    assert_eq!(p, StepPatch {
        r0: None,
        r1: Some(0x1000_6000),
        r4: None,
        write: Some(WordWrite { addr: 0x1000_0104, value: 0x1000_6000 }),
    });
    let last = vortex_step_patch(0x1800_ab3c, 0x5, 0x1000_0000, 0, 0x1000_0100, 0, 0, 0x1000_6000, 0x1000_0000);
    assert_eq!(last, StepPatch { r0: Some(0x1000_6000), ..NONE });
    let second = vortex_step_patch(0x1801_3f00, 0x5, 0x6, 0x1000_0200, 0, 0, 0, 0x1000_6000, 0);
    assert_eq!(second, StepPatch {
        r0: None,
        r1: Some(0x1000_6000),
        r4: None,
        write: Some(WordWrite { addr: 0x1000_0204, value: 0x1000_6000 }),
    });
    assert_eq!(vortex_step_patch(0x1801_3f00, 0x5, 0x6, 0, 0, 0, 0, 0x1000_6000, 0), NONE);
    assert_eq!(vortex_step_patch(0x1800_0000, 0, 0, 0, 0, 1, 1, 1, 0), NONE);
}

#[test]
fn host_events_are_or_ed_into_the_flags_word_after_the_delay() {
    assert_eq!(host_event_word(HOST_EVENT_PC, 5, 3, Some(0x18), 0x01), Some(0x19));
    assert_eq!(host_event_word(HOST_EVENT_PC, 2, 3, Some(0x18), 0x01), None);
    assert_eq!(host_event_word(HOST_EVENT_PC, 5, 0, None, 0x01), None);
    assert_eq!(host_event_word(HOST_EVENT_PC + 4, 5, 0, Some(0x18), 0x01), None);
}

#[test]
fn started_stream_requests_are_marked_complete() {
    assert!(async_start_complete_due(0x1801_fd50, 0x0101, 0x1800_0000));
    assert!(!async_start_complete_due(0x1801_fd50, 2, 0x1800_0000));
    assert!(!async_start_complete_due(0x1801_fd50, 1, 0));
    assert!(!async_start_complete_due(0x1801_fd54, 1, 0x1800_0000));
}
