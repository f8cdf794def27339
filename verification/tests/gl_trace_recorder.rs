use clicky_core::sys::eapp::gl_trace::frame_signature;
use clicky_core::sys::eapp::{
    hex_bytes, GlImportRecord, GlMemoryRegion, GlMemorySnapshot, GlRegisterSnapshot, GlTraceRecorder,
    GlValueClass,
};

fn record(ordinal: u32, value: u32) -> GlImportRecord {
    GlImportRecord {
        seq: 0,
        seq_in_frame: 0,
        frame: 0,
        ordinal,
        pc: 0x1800_0100,
        lr: 0x1800_0200,
        sp: 0x1400_0000,
        return_value: 0,
        stack: GlMemorySnapshot {
            addr: 0x1400_0000,
            requested_len: 8,
            len: 8,
            truncated: false,
            region: GlMemoryRegion::WorkRam,
            file_backing: None,
            bytes_hex: "0001020304050607".to_string(),
        },
        stack_words: Vec::new(),
        registers: vec![GlRegisterSnapshot {
            name: "r0".to_string(),
            value,
            class: GlValueClass::Scalar,
            float_bits: None,
            snapshot: None,
        }],
    }
}

#[test]
fn identical_frames_collapse_into_one_run() {
    let mut rec = GlTraceRecorder::new(1, 10, 64, 32);
    assert_eq!(rec.capture_range(), (1, 10));
    assert_eq!(rec.stack_snapshot_len(), 64);
    assert_eq!(rec.pointer_snapshot_len(), 32);
    rec.capture_record(1, record(37, 5));
    rec.capture_record(1, record(157, 0));
    rec.capture_record(2, record(37, 5));
    rec.capture_record(2, record(157, 0));
    rec.capture_record(3, record(37, 6));
    let fixture = rec.finalize();
    assert_eq!(fixture.frames.len(), 2);
    assert_eq!(fixture.frames[0].first_frame, 1);
    assert_eq!(fixture.frames[0].last_frame, 2);
    assert_eq!(fixture.frames[0].repeat_count, 2);
    assert_eq!(fixture.frames[0].records.len(), 2);
    assert_eq!(fixture.frames[0].records[1].seq, 2);
    assert_eq!(fixture.frames[0].records[1].seq_in_frame, 2);
    assert_eq!(fixture.frames[1].first_frame, 3);
    assert_eq!(fixture.frames[1].records[0].seq, 5);
    assert_eq!(fixture.frames[1].records[0].seq_in_frame, 1);
    assert_eq!(fixture.frames[0].signature.len(), 16);
    assert_ne!(fixture.frames[0].signature, fixture.frames[1].signature);
    assert_eq!(fixture.stack_snapshot_len, 64);
    assert_eq!(fixture.capture_end_frame, 10);
    assert!(fixture.title.is_empty());
}

#[test]
fn signatures_ignore_sequence_numbers_but_not_values() {
    let a = vec![record(37, 5)];
    let mut b = vec![record(37, 5)];
    b[0].seq = 99;
    b[0].frame = 7;
    let c = vec![record(37, 6)];
    assert_eq!(frame_signature(&a), frame_signature(&b));
    assert_ne!(frame_signature(&a), frame_signature(&c));
    assert!(frame_signature(&a).chars().all(|ch| ch.is_ascii_hexdigit() && !ch.is_ascii_uppercase()));
}

#[test]
fn hex_bytes_is_lowercase_two_digits_per_byte() {
    assert_eq!(hex_bytes(&[0x00, 0x0f, 0xa0, 0xff]), "000fa0ff");
    assert_eq!(hex_bytes(&[]), "");
}

#[test]
fn repeat_counts_add_up_to_the_runs_of_frame_numbers() {
    // frame numbers 4 4 5 4 4 4 6 make four runs
    let frames = [4u64, 4, 5, 4, 4, 4, 6];
    let values = [1u32, 2, 1, 1, 2, 3, 9];
    let mut rec = GlTraceRecorder::new(0, 100, 16, 8);
    for (f, v) in frames.iter().zip(values.iter()) {
        rec.capture_record(*f, record(37, *v));
    }
    let fixture = rec.finalize();
    let total: u64 = fixture.frames.iter().map(|f| f.repeat_count).sum();
    assert_eq!(total, 4);
    assert!(fixture.frames.len() <= 4);
    for pair in fixture.frames.windows(2) {
        assert_ne!(pair[0].signature, pair[1].signature);
    }
    for f in &fixture.frames {
        for (i, r) in f.records.iter().enumerate() {
            assert_eq!(r.seq_in_frame as usize, i + 1);
            let call = (r.seq - 1) as usize;
            assert_eq!(frames[call], f.first_frame);
            assert_eq!(r.registers[0].value, values[call]);
        }
    }
    assert_eq!((fixture.capture_start_frame, fixture.capture_end_frame), (0, 100));
    assert_eq!((fixture.stack_snapshot_len, fixture.pointer_snapshot_len), (16, 8));
}
