//! Decoding helpers over captured GL traces.
use vstd::prelude::*;
use crate::sys::eapp::gl_trace::{hex_encode, GlFileBacking, GlMemorySnapshot, GlImportRecord, GlFrameRecord,
    GlRegisterSnapshot, GlStackWordSnapshot, GlTraceFixture};
use crate::sys::eapp::rasterizer::{bytes_per_pixel, le32, TextureFormat};
use crate::text::{hex_char, hex_min, hex_pad, repeat_char, zero_pad};

verus! {

/// Byte size of a tightly packed `width` x `height` upload of `format`.
pub open spec fn pix_payload_size_spec(format: TextureFormat, width: int, height: int) -> int {
    width * height * bytes_per_pixel(format)
}

/// Bytes per pixel times the pixel count. The product must fit a `usize`.
pub fn pix_payload_size(format: TextureFormat, width: usize, height: usize) -> (n: usize)
    requires
        width * height * bytes_per_pixel(format) <= usize::MAX,
    ensures
        n == pix_payload_size_spec(format, width as int, height as int),
{
    let bytes_per_pixel: usize = match format {
        TextureFormat::Rgb565 | TextureFormat::Rgba5551 | TextureFormat::Rgba4444 => 2,
        TextureFormat::Rgba8888 => 4,
        TextureFormat::LuminanceAlpha88 => 2,
        TextureFormat::A8 => 1,
    };
    assert(width * height <= usize::MAX) by (nonlinear_arith)
        requires width * height * bytes_per_pixel <= usize::MAX, bytes_per_pixel >= 1, width >= 0, height >= 0;
    width * height * bytes_per_pixel
}

/// The upload enumerant pairs (internal format, pixel type) the renderer
/// understands: GL_RGB/5_6_5, GL_RGBA/5_5_5_1, GL_RGBA/4_4_4_4,
/// GL_RGBA/UNSIGNED_BYTE, GL_LUMINANCE_ALPHA/UNSIGNED_BYTE and
/// GL_ALPHA/UNSIGNED_BYTE.
pub open spec fn format_from_gl_spec(internal_format: u32, pixel_type: u32) -> Option<TextureFormat> {
    if internal_format == 0x1907 && pixel_type == 0x8363 {
        Some(TextureFormat::Rgb565)
    } else if internal_format == 0x1908 && pixel_type == 0x8034 {
        Some(TextureFormat::Rgba5551)
    } else if internal_format == 0x1908 && pixel_type == 0x8033 {
        Some(TextureFormat::Rgba4444)
    } else if internal_format == 0x1908 && pixel_type == 0x1401 {
        Some(TextureFormat::Rgba8888)
    } else if internal_format == 0x190a && pixel_type == 0x1401 {
        Some(TextureFormat::LuminanceAlpha88)
    } else if internal_format == 0x1906 && pixel_type == 0x1401 {
        Some(TextureFormat::A8)
    } else {
        None
    }
}

/// Map captured GL upload enumerants to a texture format; `None` for
/// combinations the renderer does not decode.
pub fn format_from_gl(internal_format: u32, pixel_type: u32) -> (f: Option<TextureFormat>)
    ensures
        f == format_from_gl_spec(internal_format, pixel_type),
{
    match (internal_format, pixel_type) {
        (0x1907, 0x8363) => Some(TextureFormat::Rgb565),
        (0x1908, 0x8034) => Some(TextureFormat::Rgba5551),
        (0x1908, 0x8033) => Some(TextureFormat::Rgba4444),
        (0x1908, 0x1401) => Some(TextureFormat::Rgba8888),
        (0x190a, 0x1401) => Some(TextureFormat::LuminanceAlpha88),
        (0x1906, 0x1401) => Some(TextureFormat::A8),
        _ => None,
    }
}

/// Value of an ASCII hexadecimal digit code, either case.
pub open spec fn hex_digit_value(c: nat) -> Option<nat> {
    if 48 <= c <= 57 {
        Some((c - 48) as nat)
    } else if 97 <= c <= 102 {
        Some((c - 87) as nat)
    } else if 65 <= c <= 70 {
        Some((c - 55) as nat)
    } else {
        None
    }
}

/// How `u8::from_str_radix(pair, 16)` reads a two-character pair: two hex
/// digits, or a `+` sign and one digit; anything else is rejected.
pub open spec fn hex_pair(c0: nat, c1: nat) -> Option<u8> {
    match (hex_digit_value(c0), hex_digit_value(c1)) {
        (Some(a), Some(b)) => Some((16 * a + b) as u8),
        (None, Some(b)) => if c0 == 43 { Some(b as u8) } else { None },
        _ => None,
    }
}

/// The bytes of consecutive character pairs, dropping rejected pairs.
pub open spec fn hex_decode(codes: Seq<nat>) -> Seq<u8>
    decreases codes.len(),
{
    if codes.len() < 2 {
        Seq::empty()
    } else {
        let rest = hex_decode(codes.take(codes.len() - 2));
        match hex_pair(codes[codes.len() - 2], codes[codes.len() - 1]) {
            Some(b) => rest.push(b),
            None => rest,
        }
    }
}

/// Character codes of a string.
pub open spec fn char_codes(s: Seq<char>) -> Seq<nat> {
    s.map_values(|c: char| c as nat)
}

/// The codes of a byte sequence.
pub open spec fn byte_codes(b: Seq<u8>) -> Seq<nat> {
    b.map_values(|x: u8| x as nat)
}

/// The UTF-8 bytes of a snapshot's hex text.
pub open spec fn snapshot_text_bytes(snapshot: &GlMemorySnapshot) -> Seq<u8> {
    vstd::utf8::encode_utf8(snapshot.bytes_hex@)
}

/// A snapshot whose hex text can be cut into two-byte pieces: its UTF-8
/// length is even and every even byte offset starts a character.
pub open spec fn snapshot_hex_ok(snapshot: &GlMemorySnapshot) -> bool {
    let b = snapshot_text_bytes(snapshot);
    &&& b.len() % 2 == 0
    &&& forall|i: int| 0 <= i < b.len() && i % 2 == 0 ==> #[trigger] vstd::utf8::is_char_boundary(b, i)
}

/// The bytes a snapshot's hex text encodes, read two text bytes at a time
/// (a piece that is not a hex pair gives nothing).
pub open spec fn snapshot_bytes(snapshot: &GlMemorySnapshot) -> Seq<u8> {
    hex_decode(byte_codes(snapshot_text_bytes(snapshot)))
}

fn hex_digit(b: u8) -> (v: Option<u8>)
    ensures
        v matches Some(x) ==> hex_digit_value(b as nat) == Some(x as nat),
        v is None ==> hex_digit_value(b as nat) is None,
{
    if 48 <= b && b <= 57 {
        Some(b - 48)
    } else if 97 <= b && b <= 102 {
        Some(b - 87)
    } else if 65 <= b && b <= 70 {
        Some(b - 55)
    } else {
        None
    }
}

/// Decode the hex text of a snapshot into bytes, two text bytes at a time.
pub fn bytes_from_snapshot(snapshot: &GlMemorySnapshot) -> (out: Vec<u8>)
    requires
        snapshot_hex_ok(snapshot),
    ensures
        out@ == snapshot_bytes(snapshot),
{
    let s = snapshot.bytes_hex.as_str();
    let b = s.as_bytes();
    let ghost codes = byte_codes(b@);
    assert(b@ == snapshot_text_bytes(snapshot));
    let mut out: Vec<u8> = Vec::new();
    let mut i: usize = 0;
    while i < b.len()
        invariant
            b@.len() == codes.len(),
            b@.len() == b.len(),
            codes == byte_codes(b@),
            codes.len() % 2 == 0,
            i % 2 == 0,
            i <= b@.len(),
            out@ == hex_decode(codes.take(i as int)),
        decreases b.len() - i,
    {
        let hi = hex_digit(b[i]);
        let lo = hex_digit(b[i + 1]);
        proof {
            let t = codes.take(i + 2);
            assert(t.take(t.len() - 2) =~= codes.take(i as int));
            assert(t[t.len() - 2] == b@[i as int] as nat);
            assert(t[t.len() - 1] == b@[i + 1] as nat);
        }
        match (hi, lo) {
            (Some(x), Some(y)) => {
                out.push(16 * x + y);
            },
            (None, Some(y)) => {
                if b[i] == 43 {
                    out.push(y);
                }
            },
            _ => {},
        }
        i += 2;
    }
    assert(codes.take(codes.len() as int) =~= codes);
    out
}

/// Little-endian words of whole 4-byte chunks.
pub open spec fn le_words(bytes: Seq<u8>) -> Seq<u32> {
    Seq::new(bytes.len() / 4, |k: int| le32(bytes, 4 * k) as u32)
}

/// The snapshot's bytes read as little-endian 32-bit words; a trailing
/// partial word is dropped.
pub fn words_from_snapshot(snapshot: &GlMemorySnapshot) -> (out: Vec<u32>)
    requires
        snapshot_hex_ok(snapshot),
    ensures
        out@ == le_words(snapshot_bytes(snapshot)),
{
    let bytes = bytes_from_snapshot(snapshot);
    let n = bytes.len() / 4;
    let mut out: Vec<u32> = Vec::new();
    let mut k: usize = 0;
    while k < n
        invariant
            n == bytes@.len() / 4,
            bytes@.len() == bytes.len(),
            bytes@ == snapshot_bytes(snapshot),
            k <= n,
            out@.len() == k,
            forall|j: int| 0 <= j < k ==> #[trigger] out@[j] == le32(bytes@, 4 * j) as u32,
        decreases n - k,
    {
        let w = crate::sys::eapp::rasterizer::read_le32(bytes.as_slice(), 4 * k);
        out.push(w);
        k += 1;
    }
    assert(out@ =~= le_words(bytes@));
    out
}

proof fn lemma_hex_char_code(n: nat)
    requires
        n < 16,
    ensures
        hex_digit_value(hex_char(n) as nat) == Some(n),
{
}

proof fn lemma_hex_pad_byte(v: u8)
    ensures
        hex_pad(v as nat, 2) == seq![hex_char(v as nat / 16), hex_char(v as nat % 16)],
{
    if v < 16 {
        assert(hex_min(v as nat) == seq![hex_char(v as nat)]);
        assert(repeat_char('0', 1) =~= seq!['0']);
        assert(hex_char(0) == '0');
        assert(hex_pad(v as nat, 2) =~= seq![hex_char(v as nat / 16), hex_char(v as nat % 16)]);
    } else {
        assert(hex_min((v / 16) as nat) == seq![hex_char((v / 16) as nat)]);
        assert(hex_min(v as nat) =~= seq![hex_char(v as nat / 16), hex_char(v as nat % 16)]);
    }
}

/// Decoding the hex text of an encoding gives the encoded bytes back.
pub proof fn lemma_hex_round_trip(bytes: Seq<u8>)
    ensures
        hex_decode(char_codes(hex_encode(bytes))) == bytes,
        hex_encode(bytes).len() == 2 * bytes.len(),
    decreases bytes.len(),
{
    if bytes.len() > 0 {
        let init = bytes.drop_last();
        let v = bytes.last();
        lemma_hex_round_trip(init);
        lemma_hex_pad_byte(v);
        lemma_hex_char_code(v as nat / 16);
        lemma_hex_char_code(v as nat % 16);
        let e = hex_encode(bytes);
        assert(e == hex_encode(init) + hex_pad(v as nat, 2));
        let c = char_codes(e);
        assert(c.take(c.len() - 2) =~= char_codes(hex_encode(init)));
        assert(init.push(v) =~= bytes);
    } else {
        assert(char_codes(hex_encode(bytes)) =~= Seq::<nat>::empty());
        assert(bytes =~= Seq::<u8>::empty());
    }
}

proof fn lemma_hex_encode_ascii(bytes: Seq<u8>)
    ensures
        vstd::utf8::is_ascii_chars(hex_encode(bytes)),
    decreases bytes.len(),
{
    if bytes.len() > 0 {
        lemma_hex_encode_ascii(bytes.drop_last());
        let v = bytes.last();
        lemma_hex_pad_byte(v);
        let e = hex_encode(bytes);
        assert(e == hex_encode(bytes.drop_last()) + hex_pad(v as nat, 2));
        assert forall|i: int| 0 <= i < e.len() implies '\0' <= #[trigger] e[i] <= '\u{7f}' by {
            if i >= hex_encode(bytes.drop_last()).len() {
                let k = i - hex_encode(bytes.drop_last()).len();
                assert(k == 0 || k == 1);
            }
        }
    }
}

/// A snapshot holding the hex text of some bytes decodes back to exactly
/// those bytes.
pub proof fn lemma_snapshot_hex_round_trip(snapshot: &GlMemorySnapshot, bytes: Seq<u8>)
    requires
        snapshot.bytes_hex@ == hex_encode(bytes),
    ensures
        snapshot_hex_ok(snapshot),
        snapshot_bytes(snapshot) == bytes,
{
    lemma_hex_round_trip(bytes);
    lemma_hex_encode_ascii(bytes);
    let chars = snapshot.bytes_hex@;
    let b = snapshot_text_bytes(snapshot);
    vstd::utf8::is_ascii_chars_encode_utf8(chars);
    vstd::utf8::is_ascii_chars_nat_bound(chars);
    vstd::utf8::encode_utf8_valid_utf8(chars);
    assert(byte_codes(b) =~= char_codes(chars)) by {
        assert forall|i: int| 0 <= i < b.len() implies byte_codes(b)[i] == char_codes(chars)[i] by {
            assert(chars[i] as u8 == b[i]);
            assert((chars[i] as nat) < 128);
        }
    }
    assert forall|i: int| 0 <= i < b.len() && i % 2 == 0 implies #[trigger] vstd::utf8::is_char_boundary(b, i) by {
        assert(chars[i] as u8 == b[i]);
        assert((chars[i] as nat) < 128);
        vstd::utf8::is_char_boundary_iff_not_is_continuation_byte(b, i);
    }
}

/// A texture upload reconstructed from an ordinal 45 / 4 / 99 call triplet.
#[derive(Debug, Clone, PartialEq)]
pub struct TextureUploadCandidate {
    pub ordinal45_seq: u64,
    pub ordinal4_seq: u64,
    pub ordinal99_seq: u64,
    pub object_tag: u32,
    pub descriptor_ptr: u32,
    pub descriptor_snapshot: Option<GlMemorySnapshot>,
    pub prep_width: u32,
    pub prep_height: u32,
    pub target: u32,
    pub level: u32,
    pub internal_format: u32,
    pub width: u32,
    pub height: u32,
    pub border: u32,
    pub source_format: u32,
    pub pixel_type: u32,
    pub source_ptr: u32,
    pub source_snapshot: Option<GlMemorySnapshot>,
    pub source_file: Option<GlFileBacking>,
    pub ret45: u32,
    pub ret4: u32,
    pub ret99: u32,
}

/// The first register captured under `name`.
pub open spec fn first_register(regs: Seq<GlRegisterSnapshot>, name: Seq<char>) -> Option<GlRegisterSnapshot>
    decreases regs.len(),
{
    if regs.len() == 0 {
        None
    } else if regs[0].name@ == name {
        Some(regs[0])
    } else {
        first_register(regs.drop_first(), name)
    }
}

/// The first stack word captured at `offset`.
pub open spec fn first_stack_word(words: Seq<GlStackWordSnapshot>, offset: usize) -> Option<GlStackWordSnapshot>
    decreases words.len(),
{
    if words.len() == 0 {
        None
    } else if words[0].offset == offset {
        Some(words[0])
    } else {
        first_stack_word(words.drop_first(), offset)
    }
}

/// The first frame run whose first frame is `first`.
pub open spec fn first_frame_spec(frames: Seq<GlFrameRecord>, first: u64) -> Option<GlFrameRecord>
    decreases frames.len(),
{
    if frames.len() == 0 {
        None
    } else if frames[0].first_frame == first {
        Some(frames[0])
    } else {
        first_frame_spec(frames.drop_first(), first)
    }
}

/// Look up a captured register by name.
pub fn register<'a>(record: &'a GlImportRecord, name: &str) -> (res: Option<&'a GlRegisterSnapshot>)
    ensures
        match res {
            Some(r) => first_register(record.registers@, name@) == Some(*r),
            None => first_register(record.registers@, name@) is None,
        },
{
    let regs = &record.registers;
    let mut i: usize = 0;
    assert(regs@.skip(0) =~= regs@);
    while i < regs.len()
        invariant
            i <= regs@.len(),
            regs@ == record.registers@,
            first_register(regs@, name@) == first_register(regs@.skip(i as int), name@),
        decreases regs.len() - i,
    {
        assert(regs@.skip(i as int).drop_first() =~= regs@.skip(i + 1));
        assert(regs@.skip(i as int)[0] == regs@[i as int]);
        if crate::text::str_eq(regs[i].name.as_str(), name) {
            assert(regs@.skip(i as int).len() > 0);
            assert(first_register(regs@.skip(i as int), name@) == Some(regs@[i as int]));
            return Some(&regs[i]);
        }
        i += 1;
    }
    None
}

/// Look up a captured stack word by its offset.
pub fn stack_word<'a>(record: &'a GlImportRecord, offset: usize) -> (res: Option<&'a GlStackWordSnapshot>)
    ensures
        match res {
            Some(w) => first_stack_word(record.stack_words@, offset) == Some(*w),
            None => first_stack_word(record.stack_words@, offset) is None,
        },
{
    let words = &record.stack_words;
    let mut i: usize = 0;
    assert(words@.skip(0) =~= words@);
    while i < words.len()
        invariant
            i <= words@.len(),
            words@ == record.stack_words@,
            first_stack_word(words@, offset) == first_stack_word(words@.skip(i as int), offset),
        decreases words.len() - i,
    {
        assert(words@.skip(i as int).drop_first() =~= words@.skip(i + 1));
        assert(words@.skip(i as int)[0] == words@[i as int]);
        if words[i].offset == offset {
            assert(words@.skip(i as int).len() > 0);
            assert(first_stack_word(words@.skip(i as int), offset) == Some(words@[i as int]));
            return Some(&words[i]);
        }
        i += 1;
    }
    None
}

/// The recorded frame run starting at `first`.
pub fn first_frame<'a>(fixture: &'a GlTraceFixture, first: u64) -> (res: Option<&'a GlFrameRecord>)
    ensures
        match res {
            Some(f) => first_frame_spec(fixture.frames@, first) == Some(*f),
            None => first_frame_spec(fixture.frames@, first) is None,
        },
{
    let frames = &fixture.frames;
    let mut i: usize = 0;
    assert(frames@.skip(0) =~= frames@);
    while i < frames.len()
        invariant
            i <= frames@.len(),
            frames@ == fixture.frames@,
            first_frame_spec(frames@, first) == first_frame_spec(frames@.skip(i as int), first),
        decreases frames.len() - i,
    {
        assert(frames@.skip(i as int).drop_first() =~= frames@.skip(i + 1));
        assert(frames@.skip(i as int)[0] == frames@[i as int]);
        if frames[i].first_frame == first {
            assert(frames@.skip(i as int).len() > 0);
            assert(first_frame_spec(frames@.skip(i as int), first) == Some(frames@[i as int]));
            return Some(&frames[i]);
        }
        i += 1;
    }
    None
}

/// Copy of a file backing.
pub fn clone_file_backing(b: &GlFileBacking) -> (c: GlFileBacking)
    ensures
        c == *b,
{
    GlFileBacking { path: b.path.clone(), base_addr: b.base_addr, len: b.len, offset: b.offset }
}

/// Copy of an optional file backing.
pub fn clone_opt_file_backing(b: &Option<GlFileBacking>) -> (c: Option<GlFileBacking>)
    ensures
        c == *b,
{
    match b {
        Some(x) => Some(clone_file_backing(x)),
        None => None,
    }
}

/// Copy of a memory snapshot.
pub fn clone_snapshot(s: &GlMemorySnapshot) -> (c: GlMemorySnapshot)
    ensures
        c == *s,
{
    GlMemorySnapshot {
        addr: s.addr,
        requested_len: s.requested_len,
        len: s.len,
        truncated: s.truncated,
        region: s.region,
        file_backing: clone_opt_file_backing(&s.file_backing),
        bytes_hex: s.bytes_hex.clone(),
    }
}

/// Copy of an optional memory snapshot.
pub fn clone_opt_snapshot(s: &Option<GlMemorySnapshot>) -> (c: Option<GlMemorySnapshot>)
    ensures
        c == *s,
{
    match s {
        Some(x) => Some(clone_snapshot(x)),
        None => None,
    }
}

pub open spec fn r0() -> Seq<char> { seq!['r', '0'] }
pub open spec fn r1() -> Seq<char> { seq!['r', '1'] }
pub open spec fn r2() -> Seq<char> { seq!['r', '2'] }
pub open spec fn r3() -> Seq<char> { seq!['r', '3'] }

/// The upload a 45 / 4 / 99 triplet describes: the texture object's tag,
/// descriptor and prepared size come from ordinal 45's r0..r3, the bind
/// target from ordinal 4's r0 (or ordinal 99's, whichever is larger), and
/// the `glTexImage2D` arguments from ordinal 99's r1..r3 and its stack
/// words at 0x00..0x10. `None` when any of these was not captured.
pub open spec fn triplet_spec(a: GlImportRecord, b: GlImportRecord, c: GlImportRecord) -> Option<TextureUploadCandidate> {
    let ra0 = first_register(a.registers@, r0());
    let ra1 = first_register(a.registers@, r1());
    let ra2 = first_register(a.registers@, r2());
    let ra3 = first_register(a.registers@, r3());
    let rb0 = first_register(b.registers@, r0());
    let rc0 = first_register(c.registers@, r0());
    let rc1 = first_register(c.registers@, r1());
    let rc2 = first_register(c.registers@, r2());
    let rc3 = first_register(c.registers@, r3());
    let h = first_stack_word(c.stack_words@, 0x00);
    let bo = first_stack_word(c.stack_words@, 0x04);
    let sf = first_stack_word(c.stack_words@, 0x08);
    let pt = first_stack_word(c.stack_words@, 0x0c);
    let src = first_stack_word(c.stack_words@, 0x10);
    if ra0 is None || ra1 is None || ra2 is None || ra3 is None || rb0 is None || rc0 is None || rc1 is None
        || rc2 is None || rc3 is None || h is None || bo is None || sf is None || pt is None || src is None {
        None
    } else {
        let source = src->0;
        Some(TextureUploadCandidate {
            ordinal45_seq: a.seq,
            ordinal4_seq: b.seq,
            ordinal99_seq: c.seq,
            object_tag: ra0->0.value,
            descriptor_ptr: ra1->0.value,
            descriptor_snapshot: ra1->0.snapshot,
            prep_width: ra2->0.value,
            prep_height: ra3->0.value,
            target: if rb0->0.value >= rc0->0.value { rb0->0.value } else { rc0->0.value },
            level: rc1->0.value,
            internal_format: rc2->0.value,
            width: rc3->0.value,
            height: h->0.value,
            border: bo->0.value,
            source_format: sf->0.value,
            pixel_type: pt->0.value,
            source_ptr: source.value,
            source_snapshot: source.snapshot,
            source_file: match source.snapshot {
                Some(snap) => snap.file_backing,
                None => None,
            },
            ret45: a.return_value,
            ret4: b.return_value,
            ret99: c.return_value,
        })
    }
}

fn reg_value(record: &GlImportRecord, name: &str) -> (v: Option<u32>)
    ensures
        v == (match first_register(record.registers@, name@) { Some(r) => Some(r.value), None => None }),
{
    match register(record, name) {
        Some(r) => Some(r.value),
        None => None,
    }
}

fn stack_value(record: &GlImportRecord, offset: usize) -> (v: Option<u32>)
    ensures
        v == (match first_stack_word(record.stack_words@, offset) { Some(w) => Some(w.value), None => None }),
{
    match stack_word(record, offset) {
        Some(w) => Some(w.value),
        None => None,
    }
}

/// Reconstruct the upload described by a 45 / 4 / 99 triplet.
pub fn decode_texture_triplet(ord45: &GlImportRecord, ord4: &GlImportRecord, ord99: &GlImportRecord) -> (res: Option<TextureUploadCandidate>)
    ensures
        res == triplet_spec(*ord45, *ord4, *ord99),
{
    proof {
        reveal_strlit("r0");
        reveal_strlit("r1");
        reveal_strlit("r2");
        reveal_strlit("r3");
        assert("r0"@ =~= r0());
        assert("r1"@ =~= r1());
        assert("r2"@ =~= r2());
        assert("r3"@ =~= r3());
    }
    let r45_0 = match reg_value(ord45, "r0") { Some(v) => v, None => return None };
    let r45_1 = match register(ord45, "r1") { Some(r) => r, None => return None };
    let r45_2 = match reg_value(ord45, "r2") { Some(v) => v, None => return None };
    let r45_3 = match reg_value(ord45, "r3") { Some(v) => v, None => return None };
    let r4_0 = match reg_value(ord4, "r0") { Some(v) => v, None => return None };
    let r99_0 = match reg_value(ord99, "r0") { Some(v) => v, None => return None };
    let r99_1 = match reg_value(ord99, "r1") { Some(v) => v, None => return None };
    let r99_2 = match reg_value(ord99, "r2") { Some(v) => v, None => return None };
    let r99_3 = match reg_value(ord99, "r3") { Some(v) => v, None => return None };
    let height = match stack_value(ord99, 0x00) { Some(v) => v, None => return None };
    let border = match stack_value(ord99, 0x04) { Some(v) => v, None => return None };
    let source_format = match stack_value(ord99, 0x08) { Some(v) => v, None => return None };
    let pixel_type = match stack_value(ord99, 0x0c) { Some(v) => v, None => return None };
    let source = match stack_word(ord99, 0x10) { Some(w) => w, None => return None };
    let source_file = match &source.snapshot {
        Some(snap) => clone_opt_file_backing(&snap.file_backing),
        None => None,
    };
    Some(TextureUploadCandidate {
        ordinal45_seq: ord45.seq,
        ordinal4_seq: ord4.seq,
        ordinal99_seq: ord99.seq,
        object_tag: r45_0,
        descriptor_ptr: r45_1.value,
        descriptor_snapshot: clone_opt_snapshot(&r45_1.snapshot),
        prep_width: r45_2,
        prep_height: r45_3,
        target: if r4_0 >= r99_0 { r4_0 } else { r99_0 },
        level: r99_1,
        internal_format: r99_2,
        width: r99_3,
        height,
        border,
        source_format,
        pixel_type,
        source_ptr: source.value,
        source_snapshot: clone_opt_snapshot(&source.snapshot),
        source_file,
        ret45: ord45.return_value,
        ret4: ord4.return_value,
        ret99: ord99.return_value,
    })
}

/// Records `i`, `i + 1`, `i + 2` are ordinals 45, 4 and 99 in that order.
pub open spec fn is_upload_triplet(records: Seq<GlImportRecord>, i: int) -> bool {
    records[i].ordinal == 45 && records[i + 1].ordinal == 4 && records[i + 2].ordinal == 99
}

/// Scan records from `i`: each 45 / 4 / 99 triplet is consumed whole (and
/// contributes its candidate when it decodes), any other record advances
/// the scan by one.
pub open spec fn scan_candidates(records: Seq<GlImportRecord>, i: int) -> Seq<TextureUploadCandidate>
    decreases records.len() - i,
{
    if i < 0 || i + 2 >= records.len() {
        Seq::empty()
    } else if is_upload_triplet(records, i) {
        let rest = scan_candidates(records, i + 3);
        match triplet_spec(records[i], records[i + 1], records[i + 2]) {
            Some(c) => seq![c] + rest,
            None => rest,
        }
    } else {
        scan_candidates(records, i + 1)
    }
}

/// Candidates of every recorded frame run, in order.
pub open spec fn fixture_candidates(frames: Seq<GlFrameRecord>) -> Seq<TextureUploadCandidate>
    decreases frames.len(),
{
    if frames.len() == 0 {
        Seq::empty()
    } else {
        fixture_candidates(frames.drop_last()) + scan_candidates(frames.last().records@, 0)
    }
}

/// Find every texture upload triplet in a capture.
pub fn texture_upload_candidates(fixture: &GlTraceFixture) -> (out: Vec<TextureUploadCandidate>)
    ensures
        out@ == fixture_candidates(fixture.frames@),
{
    let mut out: Vec<TextureUploadCandidate> = Vec::new();
    let mut f: usize = 0;
    while f < fixture.frames.len()
        invariant
            f <= fixture.frames@.len(),
            out@ == fixture_candidates(fixture.frames@.take(f as int)),
        decreases fixture.frames.len() - f,
    {
        let records = &fixture.frames[f].records;
        let ghost start = out@;
        let mut i: usize = 0;
        while records.len() >= 3 && i < records.len() - 2
            invariant
                i <= records@.len(),
                out@ + scan_candidates(records@, i as int) == start + scan_candidates(records@, 0),
            decreases records.len() - i,
        {
            if records[i].ordinal == 45 && records[i + 1].ordinal == 4 && records[i + 2].ordinal == 99 {
                let c = decode_texture_triplet(&records[i], &records[i + 1], &records[i + 2]);
                let ghost before = out@;
                match c {
                    Some(candidate) => {
                        out.push(candidate);
                        proof {
                            assert(out@ + scan_candidates(records@, i + 3) =~= before + scan_candidates(records@, i as int));
                        }
                    },
                    None => {},
                }
                i += 3;
            } else {
                i += 1;
            }
        }
        proof {
            assert(scan_candidates(records@, i as int) =~= Seq::<TextureUploadCandidate>::empty());
            let t = fixture.frames@.take(f + 1);
            assert(t.drop_last() =~= fixture.frames@.take(f as int));
            assert(out@ =~= fixture_candidates(t));
        }
        f += 1;
    }
    assert(fixture.frames@.take(fixture.frames@.len() as int) =~= fixture.frames@);
    out
}

} // verus!
