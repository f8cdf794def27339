//! Machine-readable records of captured OpenGLES import calls.
use vstd::prelude::*;
use vstd::std_specs::hash::DefaultHasherAdditionalSpecFns;
use vstd::utf8::encode_utf8;
use std::collections::hash_map::DefaultHasher;
use std::hash::Hasher;
use crate::text::{hex_pad, push_hex, str_eq};

verus! {

/// How a captured word was classified.
#[derive(Debug, Clone, Copy, PartialEq, Eq, Structural)]
pub enum GlValueClass {
    MappedPointer,
    CodePointer,
    Scalar,
    Float,
}

/// Which guest memory region an address falls in.
#[derive(Debug, Clone, Copy, PartialEq, Eq, Structural)]
pub enum GlMemoryRegion {
    WorkRam,
    Image,
    Trampoline,
    Unmapped,
}

/// The host file whose bytes back a guest buffer.
#[derive(Debug, Clone, PartialEq, Eq)]
pub struct GlFileBacking {
    pub path: String,
    pub base_addr: u32,
    pub len: u32,
    pub offset: u32,
}

/// A bounded copy of guest memory, hex-encoded.
#[derive(Debug, Clone, PartialEq, Eq)]
pub struct GlMemorySnapshot {
    pub addr: u32,
    pub requested_len: usize,
    pub len: usize,
    pub truncated: bool,
    pub region: GlMemoryRegion,
    pub file_backing: Option<GlFileBacking>,
    pub bytes_hex: String,
}

/// One captured argument register. A word that reads as a float keeps its
/// IEEE-754 bit pattern in `float_bits`.
#[derive(Debug, Clone)]
pub struct GlRegisterSnapshot {
    pub name: String,
    pub value: u32,
    pub class: GlValueClass,
    pub float_bits: Option<u32>,
    pub snapshot: Option<GlMemorySnapshot>,
}

/// One captured stack argument word at `offset` above the stack pointer.
#[derive(Debug, Clone)]
pub struct GlStackWordSnapshot {
    pub offset: usize,
    pub value: u32,
    pub class: GlValueClass,
    pub float_bits: Option<u32>,
    pub snapshot: Option<GlMemorySnapshot>,
}

/// One captured import call.
#[derive(Debug, Clone)]
pub struct GlImportRecord {
    pub seq: u64,
    pub seq_in_frame: u64,
    pub frame: u64,
    pub ordinal: u32,
    pub pc: u32,
    pub lr: u32,
    pub sp: u32,
    pub return_value: u32,
    pub stack: GlMemorySnapshot,
    pub stack_words: Vec<GlStackWordSnapshot>,
    pub registers: Vec<GlRegisterSnapshot>,
}

/// A run of identical frames, recorded once.
#[derive(Debug, Clone)]
pub struct GlFrameRecord {
    pub first_frame: u64,
    pub last_frame: u64,
    pub repeat_count: u64,
    pub signature: String,
    pub records: Vec<GlImportRecord>,
}

/// A complete capture.
#[derive(Debug, Clone)]
pub struct GlTraceFixture {
    pub title: String,
    pub bundle_dir: String,
    pub executable_path: String,
    pub file_vma_base: u32,
    pub work_ram_base: u32,
    pub work_ram_size: usize,
    pub stack_snapshot_len: usize,
    pub pointer_snapshot_len: usize,
    pub capture_start_frame: u64,
    pub capture_end_frame: u64,
    pub frames: Vec<GlFrameRecord>,
}

/// Two lowercase hex digits per byte, in order.
pub open spec fn hex_encode(bytes: Seq<u8>) -> Seq<char>
    decreases bytes.len(),
{
    if bytes.len() == 0 {
        Seq::empty()
    } else {
        hex_encode(bytes.drop_last()) + hex_pad(bytes.last() as nat, 2)
    }
}

/// Lowercase hex encoding of `bytes`, two digits per byte.
pub fn hex_bytes(bytes: &[u8]) -> (out: String)
    ensures
        out@ == hex_encode(bytes@),
{
    let mut out = String::new();
    let mut i: usize = 0;
    while i < bytes.len()
        invariant
            i <= bytes@.len(),
            out@ == hex_encode(bytes@.take(i as int)),
        decreases bytes.len() - i,
    {
        push_hex(&mut out, bytes[i] as u64, 2);
        proof {
            assert(bytes@.take(i + 1).drop_last() =~= bytes@.take(i as int));
        }
        i += 1;
    }
    assert(bytes@.take(bytes@.len() as int) =~= bytes@);
    out
}

/// The four little-endian bytes of `v`.
pub open spec fn le4(v: u32) -> Seq<u8> {
    seq![(v % 256) as u8, ((v / 256) % 256) as u8, ((v / 65536) % 256) as u8, ((v / 16777216) % 256) as u8]
}

/// The eight little-endian bytes of `v`.
pub open spec fn le8(v: u64) -> Seq<u8> {
    le4((v % 0x1_0000_0000) as u32) + le4((v / 0x1_0000_0000) as u32)
}

/// How a string is fed to a hasher: its UTF-8 bytes, then 0xff.
pub open spec fn str_hash_bytes(s: Seq<char>) -> Seq<u8> {
    encode_utf8(s).push(0xffu8)
}

/// The discriminant of a value class.
pub open spec fn class_byte(c: GlValueClass) -> u8 {
    match c {
        GlValueClass::MappedPointer => 0,
        GlValueClass::CodePointer => 1,
        GlValueClass::Scalar => 2,
        GlValueClass::Float => 3,
    }
}

/// The discriminant of a memory region.
pub open spec fn region_byte(r: GlMemoryRegion) -> u8 {
    match r {
        GlMemoryRegion::WorkRam => 0,
        GlMemoryRegion::Image => 1,
        GlMemoryRegion::Trampoline => 2,
        GlMemoryRegion::Unmapped => 3,
    }
}

/// The float bit pattern, when there is one.
pub open spec fn float_bytes(f: Option<u32>) -> Seq<u8> {
    match f {
        Some(b) => le4(b),
        None => Seq::empty(),
    }
}

/// The hashed bytes of one register: name, value, class and float bits.
pub open spec fn register_bytes(r: GlRegisterSnapshot) -> Seq<u8> {
    str_hash_bytes(r.name@) + le4(r.value) + seq![class_byte(r.class)] + float_bytes(r.float_bits)
}

/// The hashed bytes of one stack word: offset, value, class and float bits.
pub open spec fn word_bytes(w: GlStackWordSnapshot) -> Seq<u8> {
    le8(w.offset as u64) + le4(w.value) + seq![class_byte(w.class)] + float_bytes(w.float_bits)
}

pub open spec fn registers_bytes(rs: Seq<GlRegisterSnapshot>) -> Seq<u8>
    decreases rs.len(),
{
    if rs.len() == 0 {
        Seq::empty()
    } else {
        registers_bytes(rs.drop_last()) + register_bytes(rs.last())
    }
}

pub open spec fn words_bytes(ws: Seq<GlStackWordSnapshot>) -> Seq<u8>
    decreases ws.len(),
{
    if ws.len() == 0 {
        Seq::empty()
    } else {
        words_bytes(ws.drop_last()) + word_bytes(ws.last())
    }
}

/// The hashed bytes of one record: its call words, registers, stack
/// snapshot header and hex, and stack words. Sequence numbers and the frame
/// are not part of it.
pub open spec fn record_bytes(r: GlImportRecord) -> Seq<u8> {
    call_bytes(r) + registers_bytes(r.registers@) + snapshot_bytes_hashed(r.stack) + words_bytes(r.stack_words@)
}

/// The hashed call words of a record.
pub open spec fn call_bytes(r: GlImportRecord) -> Seq<u8> {
    le4(r.ordinal) + le4(r.pc) + le4(r.lr) + le4(r.sp) + le4(r.return_value)
}

/// The hashed stack-snapshot fields: address, lengths, truncation, region
/// and hex text.
pub open spec fn snapshot_bytes_hashed(m: GlMemorySnapshot) -> Seq<u8> {
    le4(m.addr) + le8(m.requested_len as u64) + le8(m.len as u64)
        + seq![if m.truncated { 1u8 } else { 0u8 }] + seq![region_byte(m.region)] + str_hash_bytes(m.bytes_hex@)
}

/// The hashed bytes of a frame's records, in order.
pub open spec fn records_bytes(rs: Seq<GlImportRecord>) -> Seq<u8>
    decreases rs.len(),
{
    if rs.len() == 0 {
        Seq::empty()
    } else {
        records_bytes(rs.drop_last()) + record_bytes(rs.last())
    }
}

/// The signature of a frame: the 64-bit `DefaultHasher` digest of its
/// records' bytes as 16 lowercase hex digits.
pub open spec fn signature_text(rs: Seq<GlImportRecord>) -> Seq<char> {
    hex_pad(DefaultHasher::spec_finish(seq![records_bytes(rs)]) as nat, 16)
}

fn push_le4(out: &mut Vec<u8>, v: u32)
    ensures
        final(out)@ == old(out)@ + le4(v),
{
    out.push((v % 256) as u8);
    out.push(((v / 256) % 256) as u8);
    out.push(((v / 65536) % 256) as u8);
    out.push(((v / 16777216) % 256) as u8);
    assert(out@ =~= old(out)@ + le4(v));
}

fn push_le8(out: &mut Vec<u8>, v: u64)
    ensures
        final(out)@ == old(out)@ + le8(v),
{
    push_le4(out, (v % 0x1_0000_0000) as u32);
    push_le4(out, (v / 0x1_0000_0000) as u32);
    assert(out@ =~= old(out)@ + le8(v));
}

fn push_str_bytes(out: &mut Vec<u8>, s: &str)
    ensures
        final(out)@ == old(out)@ + str_hash_bytes(s@),
{
    let bytes = s.as_bytes();
    let mut k: usize = 0;
    while k < bytes.len()
        invariant
            k <= bytes@.len(),
            bytes@ == encode_utf8(s@),
            out@ == old(out)@ + bytes@.take(k as int),
        decreases bytes@.len() - k,
    {
        out.push(bytes[k]);
        k += 1;
        assert(out@ =~= old(out)@ + bytes@.take(k as int));
    }
    out.push(0xff);
    assert(bytes@.take(bytes@.len() as int) =~= bytes@);
    assert(out@ =~= old(out)@ + str_hash_bytes(s@));
}

fn push_float_bits(out: &mut Vec<u8>, f: Option<u32>)
    ensures
        final(out)@ == old(out)@ + float_bytes(f),
{
    match f {
        Some(b) => push_le4(out, b),
        None => {
            assert(out@ =~= old(out)@ + float_bytes(f));
        },
    }
}

fn class_code(c: GlValueClass) -> (b: u8)
    ensures
        b == class_byte(c),
{
    match c {
        GlValueClass::MappedPointer => 0,
        GlValueClass::CodePointer => 1,
        GlValueClass::Scalar => 2,
        GlValueClass::Float => 3,
    }
}

fn region_code(r: GlMemoryRegion) -> (b: u8)
    ensures
        b == region_byte(r),
{
    match r {
        GlMemoryRegion::WorkRam => 0,
        GlMemoryRegion::Image => 1,
        GlMemoryRegion::Trampoline => 2,
        GlMemoryRegion::Unmapped => 3,
    }
}

fn push_call_bytes(out: &mut Vec<u8>, r: &GlImportRecord)
    ensures
        final(out)@ == old(out)@ + call_bytes(*r),
{
    push_le4(out, r.ordinal);
    push_le4(out, r.pc);
    push_le4(out, r.lr);
    push_le4(out, r.sp);
    push_le4(out, r.return_value);
    assert(out@ =~= old(out)@ + call_bytes(*r));
}

fn push_registers_bytes(out: &mut Vec<u8>, regs: &Vec<GlRegisterSnapshot>)
    ensures
        final(out)@ == old(out)@ + registers_bytes(regs@),
{
    let mut k: usize = 0;
    assert(old(out)@ + registers_bytes(regs@.take(0)) =~= old(out)@);
    while k < regs.len()
        invariant
            k <= regs@.len(),
            out@ == old(out)@ + registers_bytes(regs@.take(k as int)),
        decreases regs@.len() - k,
    {
        let ghost before = out@;
        let reg = &regs[k];
        push_str_bytes(out, reg.name.as_str());
        push_le4(out, reg.value);
        out.push(class_code(reg.class));
        push_float_bits(out, reg.float_bits);
        proof {
            assert(out@ =~= before + register_bytes(*reg));
            assert(regs@.take(k + 1).drop_last() =~= regs@.take(k as int));
        }
        k += 1;
        assert(out@ =~= old(out)@ + registers_bytes(regs@.take(k as int)));
    }
    assert(regs@.take(regs@.len() as int) =~= regs@);
}

fn push_words_bytes(out: &mut Vec<u8>, words: &Vec<GlStackWordSnapshot>)
    ensures
        final(out)@ == old(out)@ + words_bytes(words@),
{
    let mut k: usize = 0;
    assert(old(out)@ + words_bytes(words@.take(0)) =~= old(out)@);
    while k < words.len()
        invariant
            k <= words@.len(),
            out@ == old(out)@ + words_bytes(words@.take(k as int)),
        decreases words@.len() - k,
    {
        let ghost before = out@;
        let w = &words[k];
        push_le8(out, w.offset as u64);
        push_le4(out, w.value);
        out.push(class_code(w.class));
        push_float_bits(out, w.float_bits);
        proof {
            assert(out@ =~= before + word_bytes(*w));
            assert(words@.take(k + 1).drop_last() =~= words@.take(k as int));
        }
        k += 1;
        assert(out@ =~= old(out)@ + words_bytes(words@.take(k as int)));
    }
    assert(words@.take(words@.len() as int) =~= words@);
}

fn push_snapshot_bytes(out: &mut Vec<u8>, m: &GlMemorySnapshot)
    ensures
        final(out)@ == old(out)@ + snapshot_bytes_hashed(*m),
{
    push_le4(out, m.addr);
    push_le8(out, m.requested_len as u64);
    push_le8(out, m.len as u64);
    out.push(if m.truncated { 1 } else { 0 });
    out.push(region_code(m.region));
    push_str_bytes(out, m.bytes_hex.as_str());
    assert(out@ =~= old(out)@ + snapshot_bytes_hashed(*m));
}

fn push_record_bytes(out: &mut Vec<u8>, r: &GlImportRecord)
    ensures
        final(out)@ == old(out)@ + record_bytes(*r),
{
    push_call_bytes(out, r);
    push_registers_bytes(out, &r.registers);
    push_snapshot_bytes(out, &r.stack);
    push_words_bytes(out, &r.stack_words);
    assert(out@ =~= old(out)@ + record_bytes(*r));
}

/// The signature of a frame's records (see `signature_text`).
pub fn frame_signature(records: &[GlImportRecord]) -> (s: String)
    ensures
        s@ == signature_text(records@),
{
    let mut bytes: Vec<u8> = Vec::new();
    let mut k: usize = 0;
    while k < records.len()
        invariant
            k <= records@.len(),
            bytes@ == records_bytes(records@.take(k as int)),
        decreases records@.len() - k,
    {
        push_record_bytes(&mut bytes, &records[k]);
        proof {
            assert(records@.take(k + 1).drop_last() =~= records@.take(k as int));
        }
        k += 1;
    }
    assert(records@.take(records@.len() as int) =~= records@);
    let mut hasher = DefaultHasher::new();
    hasher.write(bytes.as_slice());
    assert(hasher@ =~= seq![records_bytes(records@)]);
    let digest = hasher.finish();
    let mut out = String::new();
    push_hex(&mut out, digest, 16);
    out
}

/// Collects import records frame by frame; runs of frames with equal
/// signatures are kept once, with a repeat count.
#[derive(Debug)]
pub struct GlTraceRecorder {
    capture_start_frame: u64,
    capture_end_frame: u64,
    stack_snapshot_len: usize,
    pointer_snapshot_len: usize,
    next_seq: u64,
    current_frame: Option<u64>,
    current_records: Vec<GlImportRecord>,
    frames: Vec<GlFrameRecord>,
}

/// The state of a recorder.
pub struct GlTraceRecorderView {
    pub capture_start_frame: u64,
    pub capture_end_frame: u64,
    pub stack_snapshot_len: usize,
    pub pointer_snapshot_len: usize,
    pub next_seq: u64,
    pub current_frame: Option<u64>,
    pub current_records: Seq<GlImportRecord>,
    pub frames: Seq<GlFrameRecord>,
}

impl View for GlTraceRecorder {
    type V = GlTraceRecorderView;

    closed spec fn view(&self) -> GlTraceRecorderView {
        GlTraceRecorderView {
            capture_start_frame: self.capture_start_frame,
            capture_end_frame: self.capture_end_frame,
            stack_snapshot_len: self.stack_snapshot_len,
            pointer_snapshot_len: self.pointer_snapshot_len,
            next_seq: self.next_seq,
            current_frame: self.current_frame,
            current_records: self.current_records@,
            frames: self.frames@,
        }
    }
}

/// `n + 1`, saturating.
pub open spec fn sat_inc(n: u64) -> u64 {
    if n == u64::MAX { n } else { (n + 1) as u64 }
}

/// `after` is `frames` once the open frame `current` with `records` is
/// closed: nothing changes without an open frame or records; a frame whose
/// signature equals the last run's extends that run (its last frame and
/// repeat count); any other frame starts a new run.
pub open spec fn flushed(frames: Seq<GlFrameRecord>, current: Option<u64>, records: Seq<GlImportRecord>,
    after: Seq<GlFrameRecord>) -> bool {
    match current {
        None => after == frames,
        Some(frame) => if records.len() == 0 {
            after == frames
        } else if frames.len() > 0 && frames.last().signature@ == signature_text(records) {
            &&& after.len() == frames.len()
            &&& after.drop_last() == frames.drop_last()
            &&& after.last() == (GlFrameRecord {
                last_frame: frame,
                repeat_count: sat_inc(frames.last().repeat_count),
                ..frames.last()
            })
        } else {
            &&& after.len() == frames.len() + 1
            &&& after.drop_last() == frames
            &&& after.last().first_frame == frame
            &&& after.last().last_frame == frame
            &&& after.last().repeat_count == 1
            &&& after.last().signature@ == signature_text(records)
            &&& after.last().records@ == records
        },
    }
}

/// `w` is the recorder `v` after recording `record` for `frame`: a call of
/// another frame than the open one first closes it (see `flushed`); the
/// record gets the next global sequence number and its 1-based position in
/// the frame; the capture settings stay.
pub open spec fn captured(v: GlTraceRecorderView, frame: u64, record: GlImportRecord, w: GlTraceRecorderView) -> bool {
    let switching = v.current_frame matches Some(cur) && cur != frame;
    let kept = if switching { Seq::<GlImportRecord>::empty() } else { v.current_records };
    &&& switching ==> flushed(v.frames, v.current_frame, v.current_records, w.frames)
    &&& !switching ==> w.frames == v.frames
    &&& w.current_frame == Some(frame)
    &&& w.current_records == kept.push(GlImportRecord {
        seq: v.next_seq,
        seq_in_frame: (kept.len() + 1) as u64,
        ..record
    })
    &&& w.next_seq == vstd::wrapping::u64_specs::wrapping_add(v.next_seq, 1)
    &&& w.capture_start_frame == v.capture_start_frame
    &&& w.capture_end_frame == v.capture_end_frame
    &&& w.stack_snapshot_len == v.stack_snapshot_len
    &&& w.pointer_snapshot_len == v.pointer_snapshot_len
}

/// How many maximal runs of equal consecutive values `fs` has.
pub open spec fn runs(fs: Seq<u64>) -> nat
    decreases fs.len(),
{
    if fs.len() == 0 {
        0
    } else {
        runs(fs.drop_last()) + if fs.len() == 1 || fs[fs.len() - 2] != fs.last() { 1nat } else { 0nat }
    }
}

/// The length of the last run of `fs`.
pub open spec fn last_run_len(fs: Seq<u64>) -> nat
    decreases fs.len(),
{
    if fs.len() == 0 {
        0
    } else if fs.len() >= 2 && fs[fs.len() - 2] == fs.last() {
        last_run_len(fs.drop_last()) + 1
    } else {
        1
    }
}

/// The sum of the frames' repeat counts.
pub open spec fn total_repeats(frames: Seq<GlFrameRecord>) -> nat
    decreases frames.len(),
{
    if frames.len() == 0 { 0 } else { total_repeats(frames.drop_last()) + frames.last().repeat_count as nat }
}

/// The record of call `c` (0-based) of `recs`, kept at position `i` of its
/// frame.
pub open spec fn call_record(recs: Seq<GlImportRecord>, c: int, i: int) -> GlImportRecord {
    GlImportRecord { seq: (c + 1) as u64, seq_in_frame: (i + 1) as u64, ..recs[c] }
}

/// `r`, kept at position `i` of a frame, is the record of call
/// `r.seq - 1` with that sequence number and `i + 1` as its position, and
/// that call is the `i`-th of a run of calls of the same frame.
pub open spec fn kept_ok(fs: Seq<u64>, recs: Seq<GlImportRecord>, r: GlImportRecord, i: int) -> bool {
    let c = r.seq - 1;
    &&& 0 <= c - i && c < fs.len()
    &&& r == call_record(recs, c, i)
    &&& (c - i == 0 || fs[c - i - 1] != fs[c - i])
    &&& forall|t: int| c - i <= t <= c ==> #[trigger] fs[t] == fs[c]
}

/// What holds of the recorder after the first `k` calls of `fs`/`recs`.
pub open spec fn recorder_inv(v: GlTraceRecorderView, v0: GlTraceRecorderView, fs: Seq<u64>,
    recs: Seq<GlImportRecord>, k: int) -> bool {
    let l = last_run_len(fs.take(k)) as int;
    &&& v.next_seq == k + 1
    &&& v.capture_start_frame == v0.capture_start_frame && v.capture_end_frame == v0.capture_end_frame
    &&& v.stack_snapshot_len == v0.stack_snapshot_len && v.pointer_snapshot_len == v0.pointer_snapshot_len
    &&& k == 0 ==> v.current_frame is None && v.current_records.len() == 0
    &&& k > 0 ==> v.current_frame == Some(fs[k - 1]) && v.current_records.len() == l
        && forall|i: int| 0 <= i < l ==> #[trigger] v.current_records[i] == call_record(recs, k - l + i, i)
    &&& total_repeats(v.frames) + (if k > 0 { 1int } else { 0int }) == runs(fs.take(k))
    &&& frames_ok(v.frames, fs, recs)
}

proof fn lemma_last_run(fs: Seq<u64>, k: int)
    requires
        0 < k <= fs.len(),
    ensures
        1 <= last_run_len(fs.take(k)) <= k,
        ({
            let s = k - last_run_len(fs.take(k));
            &&& s == 0 || fs[s - 1] != fs[s]
            &&& forall|t: int| s <= t < k ==> #[trigger] fs[t] == fs[k - 1]
        }),
    decreases k,
{
    assert(fs.take(k).drop_last() =~= fs.take(k - 1));
    if k >= 2 && fs[k - 2] == fs[k - 1] {
        lemma_last_run(fs, k - 1);
    }
}

proof fn lemma_total_bounds(frames: Seq<GlFrameRecord>)
    requires
        forall|j: int| 0 <= j < frames.len() ==> #[trigger] frames[j].repeat_count >= 1,
    ensures
        frames.len() <= total_repeats(frames),
        frames.len() > 0 ==> frames.last().repeat_count <= total_repeats(frames),
    decreases frames.len(),
{
    if frames.len() > 0 {
        assert forall|j: int| 0 <= j < frames.drop_last().len() implies #[trigger] frames.drop_last()[j].repeat_count >= 1 by {
            assert(frames.drop_last()[j] == frames[j]);
        }
        lemma_total_bounds(frames.drop_last());
    }
}

/// The frames are well formed for the calls `fs`/`recs`: counts at least
/// 1, adjacent signatures differ, kept records are those of their calls.
pub open spec fn frames_ok(frames: Seq<GlFrameRecord>, fs: Seq<u64>, recs: Seq<GlImportRecord>) -> bool {
    &&& forall|j: int| 0 <= j < frames.len() ==> #[trigger] frames[j].repeat_count >= 1
    &&& forall|j: int| 0 < j < frames.len() ==> #[trigger] frames[j].signature@ != frames[j - 1].signature@
    &&& forall|j: int, i: int| 0 <= j < frames.len() && 0 <= i < frames[j].records@.len()
        ==> kept_ok(fs, recs, #[trigger] frames[j].records@[i], i)
}

proof fn lemma_flush_merge(frames: Seq<GlFrameRecord>, frame: u64, open: Seq<GlImportRecord>,
    after: Seq<GlFrameRecord>, fs: Seq<u64>, recs: Seq<GlImportRecord>)
    requires
        frames_ok(frames, fs, recs),
        frames.len() > 0,
        frames.last().repeat_count < u64::MAX,
        after.len() == frames.len(),
        after.drop_last() == frames.drop_last(),
        after.last() == (GlFrameRecord {
            last_frame: frame,
            repeat_count: sat_inc(frames.last().repeat_count),
            ..frames.last()
        }),
    ensures
        frames_ok(after, fs, recs),
        total_repeats(after) == total_repeats(frames) + 1,
{
    let n = after.len() as int;
    assert forall|j: int| 0 <= j < n - 1 implies #[trigger] after[j] == frames[j] by {
        assert(after[j] == after.drop_last()[j]);
        assert(frames[j] == frames.drop_last()[j]);
    }
    assert(after[n - 1] == after.last());
    assert(frames[n - 1] == frames.last());
    assert forall|j: int, i: int| 0 <= j < n && 0 <= i < after[j].records@.len()
        implies kept_ok(fs, recs, #[trigger] after[j].records@[i], i) by {
        assert(after[j].records@ == frames[j].records@);
    }
    assert forall|j: int| 0 < j < n implies #[trigger] after[j].signature@ != after[j - 1].signature@ by {
        assert(after[j].signature@ == frames[j].signature@);
        assert(after[j - 1].signature@ == frames[j - 1].signature@);
    }
    assert forall|j: int| 0 <= j < n implies #[trigger] after[j].repeat_count >= 1 by {
        if j < n - 1 {
            assert(after[j] == frames[j]);
        }
    }
}

proof fn lemma_flush_new(frames: Seq<GlFrameRecord>, frame: u64, open: Seq<GlImportRecord>,
    after: Seq<GlFrameRecord>, fs: Seq<u64>, recs: Seq<GlImportRecord>, s: int)
    requires
        frames_ok(frames, fs, recs),
        frames.len() > 0 ==> frames.last().signature@ != signature_text(open),
        after.len() == frames.len() + 1,
        after.drop_last() == frames,
        after.last().repeat_count == 1,
        after.last().signature@ == signature_text(open),
        after.last().records@ == open,
        0 <= s,
        s + open.len() <= fs.len(),
        fs.len() < u64::MAX,
        s == 0 || fs[s - 1] != fs[s],
        forall|t: int| s <= t < s + open.len() ==> #[trigger] fs[t] == fs[s + open.len() - 1],
        forall|i: int| 0 <= i < open.len() ==> #[trigger] open[i] == call_record(recs, s + i, i),
    ensures
        frames_ok(after, fs, recs),
        total_repeats(after) == total_repeats(frames) + 1,
{
    let n = after.len() as int;
    assert forall|j: int| 0 <= j < n - 1 implies #[trigger] after[j] == frames[j] by {
        assert(after[j] == after.drop_last()[j]);
    }
    assert(after[n - 1] == after.last());
    assert forall|j: int, i: int| 0 <= j < n && 0 <= i < after[j].records@.len()
        implies kept_ok(fs, recs, #[trigger] after[j].records@[i], i) by {
        if j == n - 1 {
            let r = open[i];
            assert(after[j].records@[i] == r);
            assert(r == call_record(recs, s + i, i));
            assert(r.seq - 1 == s + i);
            assert forall|t: int| s <= t <= s + i implies #[trigger] fs[t] == fs[s + i] by {
                assert(fs[t] == fs[s + open.len() - 1]);
                assert(fs[s + i] == fs[s + open.len() - 1]);
            }
        }
    }
    assert forall|j: int| 0 < j < n implies #[trigger] after[j].signature@ != after[j - 1].signature@ by {
        if j == n - 1 {
            assert(after[j - 1] == frames.last());
        }
    }
}

/// Closing the open frame of a recorder in `recorder_inv` after `k` calls
/// keeps its frames well formed and counts the open run.
proof fn lemma_flush_keeps(v: GlTraceRecorderView, v0: GlTraceRecorderView, fs: Seq<u64>,
    recs: Seq<GlImportRecord>, k: int, after: Seq<GlFrameRecord>)
    requires
        0 < k <= fs.len(),
        fs.len() < u64::MAX,
        recorder_inv(v, v0, fs, recs, k),
        flushed(v.frames, v.current_frame, v.current_records, after),
    ensures
        total_repeats(after) == runs(fs.take(k)),
        frames_ok(after, fs, recs),
{
    let frames = v.frames;
    let open = v.current_records;
    let l = last_run_len(fs.take(k)) as int;
    lemma_last_run(fs, k);
    lemma_runs_bound(fs.take(k));
    assert(frames_ok(frames, fs, recs));
    lemma_total_bounds(frames);
    let frame = fs[k - 1];
    assert(v.current_frame == Some(frame));
    assert(open.len() == l && l >= 1);
    if frames.len() > 0 && frames.last().signature@ == signature_text(open) {
        assert(frames.last().repeat_count < u64::MAX);
        lemma_flush_merge(frames, frame, open, after, fs, recs);
    } else {
        let s = k - l;
        assert forall|i: int| 0 <= i < open.len() implies #[trigger] open[i] == call_record(recs, s + i, i) by {
            assert(open[i] == call_record(recs, k - l + i, i));
        }
        assert forall|t: int| s <= t < s + open.len() implies #[trigger] fs[t] == fs[s + open.len() - 1] by {
            assert(fs[t] == fs[k - 1]);
        }
        lemma_flush_new(frames, frame, open, after, fs, recs, s);
    }
}

proof fn lemma_runs_bound(fs: Seq<u64>)
    ensures
        runs(fs) <= fs.len(),
        fs.len() > 0 ==> runs(fs) >= 1,
    decreases fs.len(),
{
    if fs.len() > 0 {
        lemma_runs_bound(fs.drop_last());
    }
}

proof fn lemma_recorder_prefix(views: Seq<GlTraceRecorderView>, fs: Seq<u64>, recs: Seq<GlImportRecord>, k: int)
    requires
        fs.len() == recs.len(),
        views.len() == fs.len() + 1,
        fs.len() < u64::MAX,
        0 <= k <= fs.len(),
        views[0].next_seq == 1,
        views[0].current_frame is None,
        views[0].current_records.len() == 0,
        views[0].frames.len() == 0,
        forall|c: int| 0 <= c < fs.len() ==> #[trigger] captured(views[c], fs[c], recs[c], views[c + 1]),
    ensures
        recorder_inv(views[k], views[0], fs, recs, k),
    decreases k,
{
    if k == 0 {
        assert(fs.take(0) =~= Seq::<u64>::empty());
    } else {
        let c = k - 1;
        lemma_recorder_prefix(views, fs, recs, c);
        let v = views[c];
        let w = views[k];
        assert(captured(v, fs[c], recs[c], w));
        assert(fs.take(k).drop_last() =~= fs.take(c));
        assert(fs.take(k).last() == fs[c]);
        if c > 0 {
            assert(fs.take(k)[k - 2] == fs[c - 1]);
            lemma_last_run(fs, c);
        }
        let switching = v.current_frame matches Some(cur) && cur != fs[c];
        if switching {
            lemma_flush_keeps(v, views[0], fs, recs, c, w.frames);
            assert(last_run_len(fs.take(k)) == 1);
            assert(w.current_records[0] == call_record(recs, c, 0));
        } else {
            let l = last_run_len(fs.take(k)) as int;
            assert forall|i: int| 0 <= i < l implies #[trigger] w.current_records[i] == call_record(recs, k - l + i, i) by {
                if i < l - 1 {
                    assert(w.current_records[i] == v.current_records[i]);
                }
            }
        }
    }
}

/// Recording a run of calls and then finalizing keeps one frame per run of
/// identical consecutive frames, merged with the previous one when the
/// signatures agree: the repeat counts add up to the number of runs of
/// frame numbers, there are at most that many frames, no two adjacent
/// frames share a signature, and each kept record is the record of its
/// call with that call's 1-based sequence number and its 1-based position
/// in its run. The capture settings are those given to `new`. Here
/// `views[c]` is the recorder before call `c`, which records `recs[c]` for
/// frame `fs[c]`, and `out` the frames `finalize` hands out.
pub proof fn lemma_recorder_runs(views: Seq<GlTraceRecorderView>, fs: Seq<u64>, recs: Seq<GlImportRecord>,
    out: Seq<GlFrameRecord>)
    requires
        fs.len() == recs.len(),
        views.len() == fs.len() + 1,
        fs.len() < u64::MAX,
        views[0].next_seq == 1,
        views[0].current_frame is None,
        views[0].current_records.len() == 0,
        views[0].frames.len() == 0,
        forall|c: int| 0 <= c < fs.len() ==> #[trigger] captured(views[c], fs[c], recs[c], views[c + 1]),
        flushed(views.last().frames, views.last().current_frame, views.last().current_records, out),
    ensures
        total_repeats(out) == runs(fs),
        out.len() <= runs(fs),
        forall|j: int| 0 < j < out.len() ==> #[trigger] out[j].signature@ != out[j - 1].signature@,
        forall|j: int, i: int| 0 <= j < out.len() && 0 <= i < out[j].records@.len()
            ==> kept_ok(fs, recs, #[trigger] out[j].records@[i], i),
        views.last().capture_start_frame == views[0].capture_start_frame,
        views.last().capture_end_frame == views[0].capture_end_frame,
        views.last().stack_snapshot_len == views[0].stack_snapshot_len,
        views.last().pointer_snapshot_len == views[0].pointer_snapshot_len,
{
    let n = fs.len() as int;
    lemma_recorder_prefix(views, fs, recs, n);
    assert(fs.take(n) =~= fs);
    assert(views.last() == views[n]);
    if n > 0 {
        lemma_flush_keeps(views[n], views[0], fs, recs, n, out);
    } else {
        assert(out == views[n].frames);
    }
    lemma_total_bounds(out);
}

impl GlTraceRecorder {
    /// An empty recorder for frames `capture_start_frame..=capture_end_frame`
    /// with the given snapshot sizes; sequence numbers start at 1.
    pub fn new(capture_start_frame: u64, capture_end_frame: u64, stack_snapshot_len: usize, pointer_snapshot_len: usize) -> (r: Self)
        ensures
            r@.capture_start_frame == capture_start_frame,
            r@.capture_end_frame == capture_end_frame,
            r@.stack_snapshot_len == stack_snapshot_len,
            r@.pointer_snapshot_len == pointer_snapshot_len,
            r@.next_seq == 1,
            r@.current_frame is None,
            r@.current_records.len() == 0,
            r@.frames.len() == 0,
    {
        GlTraceRecorder {
            capture_start_frame,
            capture_end_frame,
            stack_snapshot_len,
            pointer_snapshot_len,
            next_seq: 1,
            current_frame: None,
            current_records: Vec::new(),
            frames: Vec::new(),
        }
    }

    pub fn capture_range(&self) -> (r: (u64, u64))
        ensures
            r == (self@.capture_start_frame, self@.capture_end_frame),
    {
        (self.capture_start_frame, self.capture_end_frame)
    }

    pub fn stack_snapshot_len(&self) -> (n: usize)
        ensures
            n == self@.stack_snapshot_len,
    {
        self.stack_snapshot_len
    }

    pub fn pointer_snapshot_len(&self) -> (n: usize)
        ensures
            n == self@.pointer_snapshot_len,
    {
        self.pointer_snapshot_len
    }

    /// Close the open frame (see `flushed`).
    fn flush_current_frame(&mut self)
        ensures
            flushed(old(self)@.frames, old(self)@.current_frame, old(self)@.current_records, final(self)@.frames),
            old(self)@.current_frame is Some ==> final(self)@.current_frame is None && final(self)@.current_records.len() == 0,
            old(self)@.current_frame is None ==> final(self)@ == old(self)@,
            final(self)@.capture_start_frame == old(self)@.capture_start_frame,
            final(self)@.capture_end_frame == old(self)@.capture_end_frame,
            final(self)@.stack_snapshot_len == old(self)@.stack_snapshot_len,
            final(self)@.pointer_snapshot_len == old(self)@.pointer_snapshot_len,
            final(self)@.next_seq == old(self)@.next_seq,
    {
        let frame = match self.current_frame {
            None => return,
            Some(f) => f,
        };
        if self.current_records.len() == 0 {
            self.current_frame = None;
            return;
        }
        let signature = frame_signature(self.current_records.as_slice());
        let n = self.frames.len();
        if n > 0 && str_eq(self.frames[n - 1].signature.as_str(), signature.as_str()) {
            let mut last = self.frames.pop().unwrap();
            let ghost before_last = last;
            last.last_frame = frame;
            last.repeat_count = last.repeat_count.saturating_add(1);
            self.frames.push(last);
            self.current_records.clear();
            self.current_frame = None;
            proof {
                assert(self.frames@.drop_last() =~= old(self).frames@.drop_last());
            }
            return;
        }
        let mut records: Vec<GlImportRecord> = Vec::new();
        std::mem::swap(&mut records, &mut self.current_records);
        self.frames.push(GlFrameRecord {
            first_frame: frame,
            last_frame: frame,
            repeat_count: 1,
            signature,
            records,
        });
        self.current_frame = None;
        proof {
            assert(self.frames@.drop_last() =~= old(self).frames@);
        }
    }

    /// Record a call of `frame`. A call of another frame than the open one
    /// first closes it (see `flushed`). The record gets the next global
    /// sequence number and its 1-based position in the frame.
    pub fn capture_record(&mut self, frame: u64, record: GlImportRecord)
        requires
            old(self)@.current_records.len() < u64::MAX,
        ensures
            captured(old(self)@, frame, record, final(self)@),
    {
        let mut record = record;
        match self.current_frame {
            Some(cur) => {
                if cur != frame {
                    self.flush_current_frame();
                    self.current_frame = Some(frame);
                }
            },
            None => {
                self.current_frame = Some(frame);
            },
        }
        record.seq = self.next_seq;
        record.seq_in_frame = self.current_records.len() as u64 + 1;
        self.next_seq = self.next_seq.wrapping_add(1);
        self.current_records.push(record);
        proof {
            let v = old(self)@;
            let w = self@;
            let switching = v.current_frame matches Some(cur) && cur != frame;
            let kept = if switching { Seq::<GlImportRecord>::empty() } else { v.current_records };
            assert(switching ==> flushed(v.frames, v.current_frame, v.current_records, w.frames));
            assert(!switching ==> w.frames == v.frames);
            assert(w.current_records == kept.push(GlImportRecord {
                seq: v.next_seq,
                seq_in_frame: (kept.len() + 1) as u64,
                ..record
            }));
        }
    }

    /// Close the open frame and hand out the capture. Names and memory
    /// layout are left empty and zero for the caller to fill in.
    pub fn finalize(self) -> (fixture: GlTraceFixture)
        ensures
            flushed(self@.frames, self@.current_frame, self@.current_records, fixture.frames@),
            fixture.title@.len() == 0,
            fixture.bundle_dir@.len() == 0,
            fixture.executable_path@.len() == 0,
            fixture.file_vma_base == 0,
            fixture.work_ram_base == 0,
            fixture.work_ram_size == 0,
            fixture.stack_snapshot_len == self@.stack_snapshot_len,
            fixture.pointer_snapshot_len == self@.pointer_snapshot_len,
            fixture.capture_start_frame == self@.capture_start_frame,
            fixture.capture_end_frame == self@.capture_end_frame,
    {
        let mut me = self;
        me.flush_current_frame();
        GlTraceFixture {
            title: String::new(),
            bundle_dir: String::new(),
            executable_path: String::new(),
            file_vma_base: 0,
            work_ram_base: 0,
            work_ram_size: 0,
            stack_snapshot_len: me.stack_snapshot_len,
            pointer_snapshot_len: me.pointer_snapshot_len,
            capture_start_frame: me.capture_start_frame,
            capture_end_frame: me.capture_end_frame,
            frames: me.frames,
        }
    }
}

} // verus!
