use clicky_core::parse::{chars_lt, sort_strings};
use clicky_core::sys::eapp::async_io::{
    bundle_path_candidates, fill_read_buffer, guest_path_string, request_read_len, save_path_name, AsyncFileIo, GuestWrite, PendingGuestCall, OPEN_MISSING_STATUS,
    OWNER_COMPLETION_PC,
};
use clicky_core::sys::eapp::binding::{
    bootstrap_return, frame_log_due, RecentPcs, RECENT_PC_LIMIT, BootstrapAction, BootstrapPhase, game_id, gl_call_kind, program_query_reply, GlCall, audio_reply, bind_imports, dma_present_due, import_module_kind, step_kind, ImportModuleKind, StepKind,
    BOOTSTRAP_RETURN_PC, GUEST_CALLBACK_RETURN_PC,
};
use clicky_core::sys::eapp::live_gl::{resource_object, resource_request, LiveArrayDef, ResourceRequest, GL_FIXED};
use clicky_core::sys::eapp::{EappBuildError, EappImportModule, LiveGlState};

#[test]
fn strings_sort_in_code_point_order() {
    let names = vec!["packB".to_string(), "Alpha".to_string(), "pack".to_string(), "packA".to_string()];
    assert_eq!(sort_strings(names), vec!["Alpha", "pack", "packA", "packB"]);
    assert!(chars_lt(&vec!['a'], &vec!['a', 'b']));
    assert!(!chars_lt(&vec!['b'], &vec!['a', 'b']));
    assert!(!chars_lt(&vec!['a'], &vec!['a']));
}

#[test]
fn direct_open_read_and_poll() {
    let mut io = AsyncFileIo::new();
    let r = io.open_file(Some("/saves/prefs.sav".to_string()), 0x1000_0100);
    assert_eq!(r.ret, 0);
    assert_eq!(r.writes, vec![GuestWrite { addr: 0x1000_0100, value: 1, byte: false }]);
    assert_eq!(io.next_handle, 2);
    assert_eq!(io.poll_status(1), 1);
    assert_eq!(io.poll_status(2), 0);
    assert_eq!(io.read_target(1, 0x1000_0200), Some("/saves/prefs.sav".to_string()));
    assert_eq!(io.read_target(1, 0), None);
    assert_eq!(io.read_target(7, 0x1000_0200), None);
    let missing = io.open_file(None, 0x1000_0100);
    assert_eq!(missing.ret, OPEN_MISSING_STATUS);
    assert!(missing.writes.is_empty());
    assert_eq!(io.filesystem_open(None), 1);
    assert_eq!(io.filesystem_open(Some("/a".to_string())), 1);
    assert_eq!(io.poll_status(2), 1);
}

#[test]
fn handles_wrap_past_zero() {
    let mut io = AsyncFileIo::new();
    io.next_handle = u32::MAX;
    io.open_file(Some("a".to_string()), 0);
    assert_eq!(io.next_handle, 1);
}

#[test]
fn short_reads_are_zero_filled() {
    let (buf, n) = fill_read_buffer(&[1, 2, 3], 5);
    assert_eq!(buf, vec![1, 2, 3, 0, 0]);
    assert_eq!(n, 3);
    let (buf, n) = fill_read_buffer(&[1, 2, 3], 2);
    assert_eq!(buf, vec![1, 2]);
    assert_eq!(n, 2);
    assert_eq!(request_read_len(0, 10), 10);
    assert_eq!(request_read_len(4, 10), 4);
    assert_eq!(request_read_len(40, 10), 10);
}

#[test]
fn completions_queue_callbacks_in_order() {
    let mut io = AsyncFileIo::new();
    let r = io.stream_open(true, 0x1000_0040, Some(99));
    assert_eq!(r.ret, 1);
    assert_eq!(r.writes[1], GuestWrite { addr: 0x1000_0064, value: 99, byte: false });
    let r = io.callback_completion(true, 0x1000_0080, 0x1801_0000, 7);
    assert_eq!(r.writes, vec![GuestWrite { addr: 0x1000_009c, value: 0, byte: true }]);
    let r = io.control_completion(false, 0x1000_0080, 5);
    assert!(r.writes.is_empty());
    assert_eq!(io.stream_open(true, 0x1000_0040, None).ret, 0);
    assert_eq!(io.callback_queued_count, 2);
    assert_eq!(
        io.next_guest_call(),
        Some(PendingGuestCall { pc: OWNER_COMPLETION_PC, arg0: 0x1000_0040, arg1: 0 })
    );
    assert_eq!(io.next_guest_call(), Some(PendingGuestCall { pc: 0x1801_0000, arg0: 0x1000_0080, arg1: 7 }));
    assert_eq!(io.next_guest_call(), None);
    assert_eq!(io.callback_invocation_count, 2);
}

#[test]
fn request_reads_stage_files_and_leave_flight() {
    let mut io = AsyncFileIo::new();
    io.begin_request(0x1000_0400);
    assert!(io.pending_requests.contains(&0x1000_0400));
    let r = io.finish_request(0x1000_0400, 0x1000_1000, 16, "Strings.dta".to_string(), true, true, 0x1801_fc68, 3);
    assert_eq!(r.ret, 1);
    assert_eq!(r.writes.len(), 2);
    assert_eq!(io.staged_generation, 1);
    assert_eq!(io.staged_files[&0x1000_0400].len, 16);
    let call = io.next_guest_call().unwrap();
    assert_eq!(call.arg0, 0x1000_0400);
    assert!(!io.pending_requests.contains(&0x1000_0400));
    io.begin_request(0x1000_0500);
    assert_eq!(io.request_missing(0x1000_0500), 0);
    assert!(io.pending_requests.is_empty());
    assert_eq!(io.request_count, 2);
}

#[test]
fn directory_enumeration_sorts_and_counts() {
    let mut io = AsyncFileIo::new();
    let r = io.enumerate_dirs(0x1000_0600, 0x1804_862c, 9, Some(vec!["b".to_string(), "a".to_string()]));
    assert_eq!(r.ret, 1);
    assert_eq!(r.writes[1], GuestWrite { addr: 0x1000_0624, value: 2, byte: false });
    assert_eq!(io.dir_entries, vec!["a", "b"]);
    assert_eq!(io.enumerate_dirs(0, 1, 2, Some(Vec::new())).ret, 0);
    assert_eq!(io.enumerate_dirs(0x1000_0600, 1, 2, None).ret, 0);
}

fn module(name: &str, count: u32, literals_addr: u32) -> EappImportModule {
    EappImportModule { name_addr: 0, name: name.to_string(), count, next_addr: 0, stubs_addr: 0, literals_addr }
}

#[test]
fn imports_bind_to_consecutive_trampolines() {
    let image = vec![0u8; 0x20];
    let mods = vec![module("OpenGLES", 2, 0x1800_0010), module("Audio", 1, 0x1800_0008)];
    let b = bind_imports(image, &mods).ok().unwrap();
    assert_eq!(&b.image[0x10..0x14], &0x1f00_0000u32.to_le_bytes());
    assert_eq!(&b.image[0x14..0x18], &0x1f00_0020u32.to_le_bytes());
    assert_eq!(&b.image[0x08..0x0c], &0x1f00_0040u32.to_le_bytes());
    assert_eq!(b.imports.len(), 3);
    assert_eq!(b.imports[2].module, "Audio");
    assert_eq!(b.imports[1].ordinal, 1);
    assert_eq!(b.import_at(0x1f00_0020), Some(1));
    assert_eq!(b.import_at(0x1f00_0024), None);
}

#[test]
fn literal_outside_the_image_vma_is_invalid() {
    let mods = vec![module("OpenGLES", 1, 0x100)];
    match bind_imports(vec![0u8; 8], &mods) {
        Err(EappBuildError::InvalidImage(msg)) => assert_eq!(msg, "address 0x00000100 is outside file VMA"),
        _ => panic!("expected an invalid image"),
    }
}

#[test]
fn steps_dispatch_by_program_counter() {
    assert_eq!(step_kind(true, 0, false, None), StepKind::Halted);
    assert_eq!(step_kind(false, BOOTSTRAP_RETURN_PC, true, None), StepKind::BootstrapReturn);
    assert_eq!(step_kind(false, 0, false, None), StepKind::BootstrapReturn);
    assert_eq!(step_kind(false, 0, true, None), StepKind::Execute);
    assert_eq!(step_kind(false, GUEST_CALLBACK_RETURN_PC, true, Some(3)), StepKind::CallbackReturn);
    assert_eq!(step_kind(false, 0x1f00_0020, true, Some(1)), StepKind::Import(1));
    assert!(dma_present_due(true, true, 20000, false));
    assert!(!dma_present_due(true, true, 20001, false));
    assert!(!dma_present_due(true, true, 20000, true));
}

#[test]
fn import_modules_route_to_handlers() {
    assert_eq!(import_module_kind("OpenGLES"), ImportModuleKind::OpenGles);
    assert_eq!(import_module_kind("Filesytem"), ImportModuleKind::Filesystem);
    assert_eq!(import_module_kind("Filesystem"), ImportModuleKind::Unknown);
    assert_eq!(import_module_kind("AsyncFileIO"), ImportModuleKind::AsyncFileIo);
    assert_eq!(audio_reply(52, [0x1000_0000, 0, 0, 0]), 1);
    assert_eq!(audio_reply(51, [0, 0, 0, 0x1000_208c]), 1);
    assert_eq!(audio_reply(51, [0x1000_0000, 0, 0, 0]), 0);
}

#[test]
fn explicit_uv_array_prefers_array_one() {
    let mut lg = LiveGlState::new(false, false, false, "game".to_string());
    assert_eq!(lg.explicit_uv_array().0.is_none(), true);
    let two = LiveArrayDef { array_index: 2, component_count: 2, format: GL_FIXED, stride: 8, guest_ptr: 0x1000_0000, valid: true, material_epoch: 0 };
    lg.arrays.insert(2, two);
    lg.enabled_arrays.insert(2);
    let (def, enabled) = lg.explicit_uv_array();
    assert_eq!(def.unwrap().array_index, 2);
    assert!(enabled);
    let one = LiveArrayDef { array_index: 1, ..two };
    lg.arrays.insert(1, one);
    let (def, enabled) = lg.explicit_uv_array();
    assert_eq!(def.unwrap().array_index, 1);
    assert!(!enabled);
}

#[test]
fn gl_calls_route_by_ordinal() {
    assert_eq!(gl_call_kind(37), GlCall::Draw);
    assert_eq!(gl_call_kind(157), GlCall::CandidatePresent);
    assert_eq!(gl_call_kind(4), GlCall::BindTexture);
    assert_eq!(gl_call_kind(175), GlCall::Ignored);
    let r = program_query_reply(0x1000_0010, 0);
    assert_eq!(r.ret, 1);
    assert_eq!(r.writes, vec![GuestWrite { addr: 0x1000_0010, value: 1, byte: false }]);
    assert_eq!(program_query_reply(0, 0x1000_0020).writes[0].value, 4);
}

#[test]
fn a_new_guest_frame_closes_the_trace() {
    let mut lg = LiveGlState::new(false, false, false, "game".to_string());
    assert_eq!(lg.start_gl_call(0, 158, 0x3f001), None);
    assert_eq!(lg.start_gl_call(0, 37, 9), None);
    assert_eq!(lg.ordinal_trace, vec![(158, 0x3f001), (37, 0)]);
    let summary = lg.start_gl_call(1, 157, 0x3f002);
    assert!(summary.is_some());
    assert_eq!(lg.lifecycle_reports.len(), 1);
    assert_eq!(lg.last_frame_counter, 1);
    assert_eq!(lg.ordinal_trace, vec![(157, 0x3f002)]);
}

#[test]
fn viewport_and_texture_bind_state() {
    let mut lg = LiveGlState::new(false, false, false, "game".to_string());
    lg.set_viewport(0, 100);
    assert_eq!((lg.viewport_w, lg.viewport_h), (320, 240));
    lg.set_viewport(160, 120);
    assert_eq!((lg.viewport_w, lg.viewport_h), (160, 120));
    lg.note_bind_texture(0);
    assert_eq!(lg.pending_tex_name, None);
    lg.note_bind_texture(5);
    lg.note_bind_texture(6);
    assert_eq!(lg.pending_tex_name, Some(5));
}

#[test]
fn game_ids_are_lowered_with_underscores() {
    assert_eq!(game_id("Ms. PAC-MAN"), "ms._pac-man");
    assert_eq!(game_id("Texas Hold'em"), "texas_hold'em");
}

#[test]
fn guest_paths_are_printable_nul_terminated_strings() {
    assert_eq!(guest_path_string(b"prefs.sav\0junk", 256), Some("prefs.sav".to_string()));
    assert_eq!(guest_path_string(b"abc", 3), Some("abc".to_string()));
    assert_eq!(guest_path_string(b"abc", 256), None);
    assert_eq!(guest_path_string(b"\0", 256), None);
    assert_eq!(guest_path_string(b"a\x01b\0", 256), None);
}

#[test]
fn guest_paths_resolve_with_and_without_leading_separators() {
    assert_eq!(bundle_path_candidates("/Resources/a.png"), vec!["/Resources/a.png", "Resources/a.png"]);
    assert_eq!(bundle_path_candidates("a.png"), vec!["a.png", "a.png"]);
    assert_eq!(bundle_path_candidates("//"), vec!["//"]);
    assert!(bundle_path_candidates("").is_empty());
    assert_eq!(save_path_name("/\\prefs.sav"), Some("prefs.sav".to_string()));
    assert_eq!(save_path_name("/"), None);
}

#[test]
fn array_definitions_infer_buffer_offsets_and_enable_valid_arrays() {
    let mut lg = LiveGlState::new(false, false, false, "game".to_string());
    let def = lg.define_array(0, 0x1000, GL_FIXED, 8, 0x1000_0000);
    assert_eq!(def.component_count, 2);
    assert!(def.valid);
    assert!(lg.enabled_arrays.contains(&0));
    let uv = lg.define_array(1, 0x1000, 0x1406, 0, 0x1000_0100);
    assert_eq!(uv.component_count, 2);
    let none = lg.define_array(3, 2, GL_FIXED, 8, 0);
    assert!(!none.valid);
    assert!(!lg.enabled_arrays.contains(&3));
    lg.enable_array(3);
    assert!(lg.enabled_arrays.contains(&3));
    assert_eq!(lg.arrays[&0].component_count, 2);
}

#[test]
fn material_binds_advance_the_epoch() {
    let mut lg = LiveGlState::new(false, false, false, "game".to_string());
    let epoch = lg.current_material_epoch;
    lg.pointer_text_carry_handle = Some(7);
    lg.bind_material(0x3, 0x1000_0040);
    assert_eq!(lg.current_handle, 0x3);
    assert_eq!(lg.current_state_ptr, 0x1000_0040);
    assert_eq!(lg.current_material_epoch, epoch + 1);
    assert_eq!(lg.pointer_text_carry_handle, None);
    let def = lg.define_array(0, 2, GL_FIXED, 8, 0x1000_0000);
    assert_eq!(def.material_epoch, epoch + 1);
}

#[test]
fn uploads_take_the_pending_texture_name_and_file_backing() {
    assert_eq!(LiveGlState::upload_payload_len(2, 1, 0x1907, 0x8363, 0x1000_0000), Some(4));
    assert_eq!(LiveGlState::upload_payload_len(2, 1, 0x1907, 0x8363, 0), None);
    assert_eq!(LiveGlState::upload_payload_len(2, 1, 0x1234, 0x8363, 0x1000_0000), None);
    let mut lg = LiveGlState::new(false, false, false, "game".to_string());
    lg.note_bind_texture(9);
    let backing = clicky_core::sys::eapp::GlFileBacking {
        path: "atlas.pix".to_string(),
        base_addr: 0x1000_0000,
        len: 64,
        offset: 0,
    };
    lg.store_upload(0xde1, 2, 1, 0x1907, 0x8363, 0x1000_0010, &[0x00, 0xf8, 0x1f, 0x00], Some(backing));
    assert_eq!(lg.pending_tex_name, None);
    let u = lg.uploads.last().unwrap();
    assert_eq!(u.tex_name, Some(9));
    assert_eq!(u.index, lg.uploads.len() - 1);
    assert_eq!(u.source_file.as_deref(), Some("atlas.pix"));
    assert_eq!(u.source_file_offset, Some(0x10));
    let tex = u.texture.as_ref().unwrap();
    assert_eq!(tex.pixels[0].r, 255);
    assert_eq!(tex.pixels[1].b, 255);
}

#[test]
fn bootstrap_phases_advance_on_returns() {
    assert_eq!(bootstrap_return(BootstrapPhase::Entry), (BootstrapPhase::Running, BootstrapAction::StartFrames));
    assert_eq!(bootstrap_return(BootstrapPhase::Running), (BootstrapPhase::Running, BootstrapAction::FrameReturned));
    assert_eq!(bootstrap_return(BootstrapPhase::Done), (BootstrapPhase::Done, BootstrapAction::Halt));
    assert!(frame_log_due(1));
    assert!(frame_log_due(1200));
    assert!(!frame_log_due(601));
}

#[test]
fn resource_uploads_reuse_the_same_source() {
    assert_eq!(resource_object(0x1000_0040, 2, 2), Some(0x1000_0040));
    assert_eq!(resource_object(0x1000_0040, 0, 2), None);
    assert_eq!(resource_object(0x40, 2, 2), None);
    let mut words = [0u32; 12];
    words[2] = 0x77;
    words[4] = (2 << 16) | 2;
    words[9] = 0x1000_1000;
    words[10] = 0x8808;
    let req = resource_request(&words, 2, 2).unwrap();
    assert_eq!((req.width, req.height, req.byte_len), (2, 2, 4));
    assert_eq!(resource_request(&words, 2, 3), None);
    words[10] = 0x1234;
    assert_eq!(resource_request(&words, 2, 2), None);
    let mut lg = LiveGlState::new(false, false, false, "game".to_string());
    lg.note_resource_descriptor(0x55, 0x1908);
    assert_eq!(lg.pending_tex_name, Some(0x55));
    lg.store_resource(req, &[1, 2, 3, 4]);
    let n = lg.uploads.len();
    assert_eq!(lg.uploads[n - 1].tex_name, Some(0x77));
    assert_eq!(lg.resource_uploads_by_handle[&0x77], n - 1);
    let again = ResourceRequest { handle: 0x78, ..req };
    lg.store_resource(again, &[1, 2, 3, 4]);
    assert_eq!(lg.uploads.len(), n);
    assert_eq!(lg.resource_uploads_by_handle[&0x78], n - 1);
}

#[test]
fn recent_program_counters_skip_repeats_and_stay_bounded() {
    let mut r = RecentPcs::new();
    r.record(0x1800_0000);
    r.record(0x1800_0000);
    r.record(0x1800_0004);
    assert_eq!(r.render(), "0x18000000 -> 0x18000004");
    for pc in 0..100u32 {
        r.record(pc);
    }
    assert_eq!(r.pcs.len(), RECENT_PC_LIMIT);
    assert_eq!(r.pcs[0], 36);
    assert_eq!(RecentPcs::new().render(), "");
}

#[test]
fn text_char_diagnostics_list_objects_in_order() {
    let mut lg = LiveGlState::new(false, false, false, "game".to_string());
    assert!(lg.take_text_char_diag(7).is_empty());
    lg.record_text_char_push(5, 0x41);
    lg.record_text_char_push(5, 0x01);
    lg.record_text_char_push(3, 0x42);
    assert_eq!(lg.take_text_char_for_draw(5), Some(0x41));
    assert_eq!(lg.take_text_char_for_draw(3), Some(0x42));
    let lines = lg.take_text_char_diag(7);
    assert_eq!(
        lines,
        vec![
            "text_char_diag frame=7 text_obj=0x00000003 pushed=1 consumed=1 ascii=\"B\" hex=[0x42]".to_string(),
            "text_char_diag frame=7 text_obj=0x00000005 pushed=2 consumed=1 ascii=\"A.\" hex=[0x41,0x01] MISMATCH"
                .to_string(),
        ]
    );
}
