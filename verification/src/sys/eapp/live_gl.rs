//! Live OpenGLES state: uploads, frame lifecycle and framebuffer
//! presentation. The internal framebuffer keeps its native (unflipped) row
//! order; a vertical flip is applied only when presenting.
use vstd::prelude::*;
use vstd::arithmetic::div_mod::{lemma_fundamental_div_mod, lemma_fundamental_div_mod_converse};
use std::collections::{HashMap, HashSet};
use crate::sys::eapp::gl_decode::{format_from_gl, format_from_gl_spec, pix_payload_size, pix_payload_size_spec};
use crate::sys::eapp::gl_trace::GlFileBacking;
use crate::sys::eapp::image::copy_range;
use crate::sys::eapp::capture::{WORK_RAM_BASE, WORK_RAM_SIZE};
use crate::sys::eapp::runner::ordinal45_resource_format;
use crate::sys::eapp::rasterizer::{decode_manifest_texture, manifest_decodes_to, manifest_kind_spec, manifest_valid,
    DecodedManifestTexture, bytes_per_pixel, decode_texel, widen5, widen6, framebuffer_hash, framebuffer_hash_spec, Rgba8, Texture, TextureFormat};
use crate::text::{dec_min, hex_pad, hex_prefixed, push_dec, push_hex, push_hex_prefixed, str_eq};
use crate::parse::{chars_of, lower, lower_string_of, push_char};

use crate::sys::eapp::bus::dma_has_content;

verus! {

broadcast use vstd::std_specs::hash::group_hash_axioms;

pub const FB_WIDTH: usize = 320;
pub const FB_HEIGHT: usize = 240;
pub const FB_PIXELS: usize = 76800;

/// GL_FIXED, the position/UV array format.
pub const GL_FIXED: u32 = 0x140c;
/// GL_UNSIGNED_SHORT, the index type of indexed draws.
pub const GL_UNSIGNED_SHORT: u32 = 0x1403;
/// The DrawArrays quad mode token.
pub const DRAW_MODE: u32 = 7;
/// GL_TRIANGLE_STRIP.
pub const DRAW_MODE_TRIANGLE_STRIP: u32 = 5;
/// GL_COLOR_BUFFER_BIT, the clear mask for the colour buffer.
pub const GL_COLOR_BUFFER_BIT: u32 = 0x4000;

/// Whether an indexed draw (ordinal 38) is one that is rendered: a
/// triangle strip of 3 to 4096 unsigned-short indices at a non-null
/// address.
pub open spec fn draw_elements_ok(mode: u32, count: u32, index_type: u32, indices_ptr: u32) -> bool {
    mode == DRAW_MODE_TRIANGLE_STRIP && index_type == GL_UNSIGNED_SHORT && 3 <= count <= 4096 && indices_ptr != 0
}

pub fn draw_elements_supported(mode: u32, count: u32, index_type: u32, indices_ptr: u32) -> (b: bool)
    ensures
        b == draw_elements_ok(mode, count, index_type, indices_ptr),
{
    mode == DRAW_MODE_TRIANGLE_STRIP && index_type == GL_UNSIGNED_SHORT && 3 <= count && count <= 4096
        && indices_ptr != 0
}

/// The little-endian 16-bit indices of whole byte pairs of `bytes`.
pub open spec fn le16_indices(bytes: Seq<u8>) -> Seq<usize> {
    Seq::new(bytes.len() / 2, |k: int| (bytes[2 * k] + 256 * bytes[2 * k + 1]) as usize)
}

/// Read an index buffer: little-endian 16-bit values, a trailing odd byte
/// dropped.
pub fn indices_from_bytes(bytes: &[u8]) -> (out: Vec<usize>)
    ensures
        out@ == le16_indices(bytes@),
{
    let n = bytes.len() / 2;
    let mut out: Vec<usize> = Vec::new();
    let mut k: usize = 0;
    while k < n
        invariant
            n == bytes@.len() / 2,
            bytes@.len() <= usize::MAX,
            k <= n,
            out@.len() == k,
            forall|j: int| 0 <= j < k ==> #[trigger] out@[j] == (bytes@[2 * j] + 256 * bytes@[2 * j + 1]) as usize,
        decreases n - k,
    {
        let v = (bytes[2 * k] as usize) + 256 * (bytes[2 * k + 1] as usize);
        out.push(v);
        k += 1;
    }
    assert(out@ =~= le16_indices(bytes@));
    out
}

/// The number of quads in a `DRAW_MODE` draw of `count` vertices from
/// `first`: defined only for `first == 0` and a positive multiple of four.
pub open spec fn quad_groups(mode: u32, first: int, count: int) -> Option<int> {
    if mode != DRAW_MODE || first != 0 || count < 4 || count % 4 != 0 {
        None
    } else {
        Some(count / 4)
    }
}

/// Batched quads: `count / 4` groups for a `DRAW_MODE` draw starting at 0
/// whose count is a positive multiple of four, else `None`.
pub fn quad_group_count(mode: u32, first: usize, count: usize) -> (r: Option<usize>)
    ensures
        r matches Some(n) ==> quad_groups(mode, first as int, count as int) == Some(n as int),
        r is None ==> quad_groups(mode, first as int, count as int) is None,
{
    if mode != DRAW_MODE || first != 0 || count < 4 || count % 4 != 0 {
        None
    } else {
        Some(count / 4)
    }
}

/// Four-index quad groups of an indexed draw (which has no `first`).
pub fn indexed_quad_group_count(mode: u32, count: usize) -> (r: Option<usize>)
    ensures
        r matches Some(n) ==> quad_groups(mode, 0, count as int) == Some(n as int),
        r is None ==> quad_groups(mode, 0, count as int) is None,
{
    if mode != DRAW_MODE || count < 4 || count % 4 != 0 {
        None
    } else {
        Some(count / 4)
    }
}

/// The (internal format, pixel type) enumerants that upload `format`.
pub open spec fn manifest_gl_format_spec(format: TextureFormat) -> (u32, u32) {
    match format {
        TextureFormat::Rgb565 => (0x1907, 0x8363),
        TextureFormat::Rgba5551 => (0x1908, 0x8034),
        TextureFormat::Rgba4444 => (0x1908, 0x8033),
        TextureFormat::Rgba8888 => (0x1908, 0x1401),
        TextureFormat::LuminanceAlpha88 => (0x190a, 0x1401),
        TextureFormat::A8 => (0x1906, 0x1401),
    }
}

/// GL_RGB/5_6_5, GL_RGBA/5_5_5_1, GL_RGBA/4_4_4_4, GL_RGBA/UNSIGNED_BYTE,
/// GL_LUMINANCE_ALPHA/UNSIGNED_BYTE or GL_ALPHA/UNSIGNED_BYTE.
pub fn manifest_gl_format(format: TextureFormat) -> (r: (u32, u32))
    ensures
        r == manifest_gl_format_spec(format),
{
    match format {
        TextureFormat::Rgb565 => (0x1907, 0x8363),
        TextureFormat::Rgba5551 => (0x1908, 0x8034),
        TextureFormat::Rgba4444 => (0x1908, 0x8033),
        TextureFormat::Rgba8888 => (0x1908, 0x1401),
        TextureFormat::LuminanceAlpha88 => (0x190a, 0x1401),
        TextureFormat::A8 => (0x1906, 0x1401),
    }
}

/// Where pixel `i` of a `w` x `h` row-major image comes from after a
/// vertical flip: the same column of the mirrored row.
pub open spec fn mirror_index(i: int, w: int, h: int) -> int {
    (h - 1 - i / w) * w + i % w
}

/// `s` with the rows of its leading `w` x `h` image in reverse order; any
/// trailing elements stay where they are.
pub open spec fn flipped_rows<T>(s: Seq<T>, w: int, h: int) -> Seq<T> {
    Seq::new(s.len(), |i: int| if 0 < w && i < w * h { s[mirror_index(i, w, h)] } else { s[i] })
}

/// Mirroring row `r` of `h` rows keeps the column and lands in row `h-1-r`.
proof fn lemma_mirror_index(i: int, w: int, h: int, r: int)
    requires
        0 < w,
        0 <= r < h,
        r * w <= i < r * w + w,
    ensures
        i / w == r,
        i % w == i - r * w,
        mirror_index(i, w, h) == (h - 1 - r) * w + (i - r * w),
        0 <= mirror_index(i, w, h) < w * h,
{
    lemma_fundamental_div_mod_converse(i, w, r, i - r * w);
    assert((h - 1 - r) * w + w <= w * h) by (nonlinear_arith)
        requires 0 <= r < h, 0 < w;
    assert(0 <= (h - 1 - r) * w) by (nonlinear_arith)
        requires 0 <= r < h, 0 < w;
}

/// Every index below `w * h` lies in some row `r < h`.
proof fn lemma_row_of(i: int, w: int, h: int)
    requires
        0 < w,
        0 <= i < w * h,
    ensures
        0 <= i / w < h,
        (i / w) * w <= i < (i / w) * w + w,
{
    lemma_fundamental_div_mod(i, w);
    assert(0 <= i / w < h) by (nonlinear_arith)
        requires 0 <= i < w * h, 0 < w, i == w * (i / w) + i % w, 0 <= i % w < w;
    assert((i / w) * w == w * (i / w)) by (nonlinear_arith);
}

/// A vertical flip moves row `y` to row `h - 1 - y` and keeps the column:
/// the texel at (x, y) afterwards is the one that was at (x, h - 1 - y);
/// the length is kept and anything past the `w` x `h` image stays.
pub proof fn lemma_flip_moves_rows<T>(s: Seq<T>, w: int, h: int, x: int, y: int, k: int)
    requires
        0 < w,
        0 <= h,
        w * h <= s.len(),
    ensures
        flipped_rows(s, w, h).len() == s.len(),
        (0 <= x < w && 0 <= y < h) ==> flipped_rows(s, w, h)[y * w + x] == s[(h - 1 - y) * w + x],
        (w * h <= k < s.len()) ==> flipped_rows(s, w, h)[k] == s[k],
{
    if 0 <= x < w && 0 <= y < h {
        let i = y * w + x;
        assert(y * w <= i < y * w + w);
        assert(i < w * h) by (nonlinear_arith)
            requires i == y * w + x, x < w, y < h, 0 <= x, 0 <= y;
        lemma_mirror_index(i, w, h, y);
    }
}

/// Flipping the rows twice gives the buffer back unchanged.
pub proof fn lemma_flip_involution<T>(s: Seq<T>, w: int, h: int)
    requires
        0 <= w,
        0 <= h,
        w * h <= s.len(),
    ensures
        flipped_rows(flipped_rows(s, w, h), w, h) == s,
{
    let f = flipped_rows(s, w, h);
    assert forall|i: int| 0 <= i < s.len() implies #[trigger] flipped_rows(f, w, h)[i] == s[i] by {
        if 0 < w && i < w * h {
            lemma_row_of(i, w, h);
            let r = i / (w as int);
            lemma_mirror_index(i, w, h, r);
            let j = mirror_index(i, w, h);
            let r2 = h - 1 - r;
            assert(r2 * w <= j < r2 * w + w);
            lemma_mirror_index(j, w, h, r2);
            assert(mirror_index(j, w, h) == i);
        }
    }
    assert(flipped_rows(f, w, h) =~= s);
}

/// Swap the `w` elements at `top` with the `w` elements at `bottom`.
fn swap_rows(fb: &mut [Rgba8], top: usize, bottom: usize, w: usize)
    requires
        top + w <= bottom,
        bottom + w <= old(fb)@.len(),
    ensures
        final(fb)@.len() == old(fb)@.len(),
        forall|i: int| top <= i < top + w ==> #[trigger] final(fb)@[i] == old(fb)@[i - top + bottom],
        forall|i: int| bottom <= i < bottom + w ==> #[trigger] final(fb)@[i] == old(fb)@[i - bottom + top],
        forall|i: int| 0 <= i < old(fb)@.len() && !(top <= i < top + w) && !(bottom <= i < bottom + w)
            ==> #[trigger] final(fb)@[i] == old(fb)@[i],
{
    let ghost before = fb@;
    let mut k: usize = 0;
    while k < w
        invariant
            k <= w,
            top + w <= bottom,
            bottom + w <= before.len(),
            fb@.len() == before.len(),
            forall|i: int| top <= i < top + k ==> #[trigger] fb@[i] == before[i - top + bottom],
            forall|i: int| bottom <= i < bottom + k ==> #[trigger] fb@[i] == before[i - bottom + top],
            forall|i: int| 0 <= i < before.len() && !(top <= i < top + k) && !(bottom <= i < bottom + k)
                ==> #[trigger] fb@[i] == before[i],
        decreases w - k,
    {
        let a = fb[top + k];
        let b = fb[bottom + k];
        fb[top + k] = b;
        fb[bottom + k] = a;
        k += 1;
    }
}

/// Flip the leading `width` x `height` image of `fb` vertically, in place.
pub fn flip_vertical_in_place(fb: &mut [Rgba8], width: usize, height: usize)
    requires
        height < 2 || width == 0 || width * height <= old(fb)@.len(),
    ensures
        final(fb)@ == flipped_rows(old(fb)@, width as int, height as int),
{
    let ghost orig = fb@;
    let w = width;
    let h = height;
    if h < 2 || w == 0 {
        proof {
            assert forall|i: int| 0 <= i < orig.len() implies #[trigger] flipped_rows(orig, w as int, h as int)[i] == orig[i] by {
                if 0 < w && i < w * h {
                    assert(h == 1) by (nonlinear_arith) requires i < w * h, h < 2, 0 <= i, h >= 0;
                    lemma_mirror_index(i, w as int, h as int, 0);
                }
            }
            assert(flipped_rows(orig, w as int, h as int) =~= orig);
        }
        return;
    }
    let half = h / 2;
    let mut y: usize = 0;
    assert(orig.len() == fb.len());
    proof {
        assert forall|i: int| 0 <= i < w * h implies 0 <= #[trigger] (i / (w as int)) < h by {
            lemma_row_of(i, w as int, h as int);
        }
    }
    while y < half
        invariant
            orig.len() <= usize::MAX,
            0 < w,
            2 <= h,
            half == h / 2,
            y <= half,
            w * h <= orig.len(),
            fb@.len() == orig.len(),
            forall|i: int| 0 <= i < w * h ==> #[trigger] fb@[i] == if i / (w as int) < y || i / (w as int) > h - 1 - y {
                orig[mirror_index(i, w as int, h as int)]
            } else {
                orig[i]
            },
            forall|i: int| w * h <= i < orig.len() ==> #[trigger] fb@[i] == orig[i],
        decreases half - y,
    {
        assert(y * w + w <= (h - 1 - y) * w && (h - 1 - y) * w + w <= w * h) by (nonlinear_arith)
            requires y < h / 2, 0 < w, 2 <= h;
        let top = y * w;
        let bottom = (h - 1 - y) * w;
        let ghost before = fb@;
        swap_rows(fb, top, bottom, w);
        proof {
            assert forall|i: int| 0 <= i < w * h implies #[trigger] fb@[i] == if i / (w as int) < y + 1 || i / (w as int) > h - 1 - (y + 1) {
                orig[mirror_index(i, w as int, h as int)]
            } else {
                orig[i]
            } by {
                lemma_row_of(i, w as int, h as int);
                let r = i / (w as int);
                if r == y {
                    lemma_mirror_index(i, w as int, h as int, r);
                    let j = i - top + bottom;
                    lemma_row_of(j, w as int, h as int);
                    lemma_mirror_index(j, w as int, h as int, h - 1 - y);
                } else if r == h - 1 - y {
                    lemma_mirror_index(i, w as int, h as int, r);
                    let j = i - bottom + top;
                    lemma_mirror_index(j, w as int, h as int, y as int);
                } else {
                    assert(!(top <= i < top + w)) by (nonlinear_arith)
                        requires r != y, r * w <= i < r * w + w, top == y * w, 0 < w;
                    assert(!(bottom <= i < bottom + w)) by (nonlinear_arith)
                        requires r != h - 1 - y, r * w <= i < r * w + w, bottom == (h - 1 - y) * w, 0 < w;
                }
            }
        }
        y += 1;
    }
    proof {
        assert forall|i: int| 0 <= i < orig.len() implies #[trigger] fb@[i] == flipped_rows(orig, w as int, h as int)[i] by {
            if i < w * h {
                lemma_row_of(i, w as int, h as int);
                let r = i / (w as int);
                lemma_mirror_index(i, w as int, h as int, r);
                if !(r < y || r > h - 1 - y) {
                    assert(r == h - 1 - r);
                }
            }
        }
        assert(fb@ =~= flipped_rows(orig, w as int, h as int));
    }
}

/// A texture upload: pixel bytes are decoded when the upload is captured,
/// keeping the uploaded row order.
#[derive(Debug, Clone)]
pub struct LiveGlUpload {
    pub index: usize,
    pub target: u32,
    pub width: usize,
    pub height: usize,
    pub source_format: u32,
    pub pixel_type: u32,
    pub source_ptr: u32,
    pub source_file: Option<String>,
    pub source_file_offset: Option<u32>,
    pub format: Option<TextureFormat>,
    pub texture: Option<Texture>,
    /// GL texture name this upload is bound to, when known.
    pub tex_name: Option<u32>,
}

/// A texture resource named by a resource call's texture object.
#[derive(Debug, Clone, Copy, PartialEq, Eq, Structural)]
pub struct ResourceRequest {
    pub handle: u32,
    pub width: usize,
    pub height: usize,
    pub pixel_ptr: u32,
    pub resource_format: u32,
    pub format: TextureFormat,
    /// Bytes of pixels to read.
    pub byte_len: usize,
}

/// The texture object a resource call of the given prepared size reads,
/// from descriptor word 1: none for a zero size or an object outside work
/// RAM.
pub fn resource_object(desc_w1: u32, prep_width: usize, prep_height: usize) -> (r: Option<u32>)
    ensures
        r == if prep_width == 0 || prep_height == 0 || !(WORK_RAM_BASE <= desc_w1 < WORK_RAM_BASE + WORK_RAM_SIZE) {
            None::<u32>
        } else {
            Some(desc_w1)
        },
{
    if prep_width == 0 || prep_height == 0 || !(WORK_RAM_BASE <= desc_w1 && desc_w1 < WORK_RAM_BASE + WORK_RAM_SIZE as u32) {
        None
    } else {
        Some(desc_w1)
    }
}

/// What the twelve words of a texture object describe, when it matches
/// the prepared size: handle (word 2), size (word 4, width in the low
/// half), pixel pointer (word 9) and format (word 10). Sizes above 4096,
/// zero handles or pointers, unknown formats and payloads over 16 MiB
/// describe nothing.
pub open spec fn resource_request_of(words: Seq<u32>, prep_width: usize, prep_height: usize) -> Option<ResourceRequest> {
    let handle = words[2];
    let width = (words[4] % 0x1_0000) as usize;
    let height = (words[4] / 0x1_0000) as usize;
    let pixel_ptr = words[9];
    let resource_format = words[10];
    if width == 0 || height == 0 || width != prep_width || height != prep_height || handle == 0 || pixel_ptr == 0
        || width > 4096 || height > 4096 {
        None
    } else if !(resource_format == 0x8808 || resource_format == 0x0801) {
        None
    } else {
        let byte_len = width * height;
        if byte_len == 0 || byte_len > 16 * 1024 * 1024 {
            None
        } else {
            Some(ResourceRequest {
                handle,
                width,
                height,
                pixel_ptr,
                resource_format,
                format: TextureFormat::A8,
                byte_len: byte_len as usize,
            })
        }
    }
}

pub fn resource_request(words: &[u32], prep_width: usize, prep_height: usize) -> (r: Option<ResourceRequest>)
    requires
        words@.len() == 12,
    ensures
        r == resource_request_of(words@, prep_width, prep_height),
        r matches Some(q) ==> q.byte_len == q.width * q.height * bytes_per_pixel(q.format),
{
    let handle = words[2];
    let dims = words[4];
    let width = (dims & 0xffff) as usize;
    let height = (dims >> 16) as usize;
    assert(dims & 0xffff == dims % 0x1_0000 && dims >> 16 == dims / 0x1_0000) by (bit_vector);
    let pixel_ptr = words[9];
    let resource_format = words[10];
    if width == 0 || height == 0 || width != prep_width || height != prep_height || handle == 0 || pixel_ptr == 0
        || width > 4096 || height > 4096 {
        return None;
    }
    let format = match ordinal45_resource_format(resource_format) {
        Some(f) => f,
        None => return None,
    };
    assert(width * height <= 4096 * 4096) by (nonlinear_arith)
        requires width <= 4096, height <= 4096;
    let byte_len = width * height;
    if byte_len == 0 || byte_len > 16 * 1024 * 1024 {
        return None;
    }
    Some(ResourceRequest { handle, width, height, pixel_ptr, resource_format, format, byte_len })
}

/// A vertex array definition. Unknown slots are kept verbatim.
#[derive(Debug, Clone, Copy, Default)]
pub struct LiveArrayDef {
    pub array_index: u32,
    pub component_count: u32,
    pub format: u32,
    pub stride: u32,
    pub guest_ptr: u32,
    pub valid: bool,
    pub material_epoch: u64,
}

/// One decoded draw, kept for diagnostics. Coordinates and colours are
/// IEEE-754 single-precision bit patterns.
#[derive(Debug)]
pub struct LiveDrawRecord {
    pub draw_index: usize,
    pub handle: u32,
    pub state_ptr: u32,
    pub bound_tex_name: Option<u32>,
    pub translation: (u32, u32),
    pub positions: [(u32, u32); 4],
    pub uvs: [(u32, u32); 4],
    pub has_uv: bool,
    pub vertex_colors: Option<[[u32; 4]; 4]>,
    pub solid_color: Option<Rgba8>,
    pub tint: Rgba8,
    pub used_generated_uvs: bool,
    pub position_array: Option<LiveArrayDef>,
    pub uv_array: Option<LiveArrayDef>,
    pub enabled_arrays: Vec<u32>,
    pub state_words: Vec<u32>,
    pub bounds: (u32, u32, u32, u32),
    pub coverage: u64,
    pub selected_upload: Option<usize>,
    pub inferred_dim: Option<(usize, usize)>,
    pub skipped_reason: Option<String>,
}

/// What a frame-begin event did.
#[derive(Debug, Copy, Clone, PartialEq, Eq, Structural)]
pub enum BeginOutcome {
    Began,
    DoubleBegin,
}

/// Metadata of a presented frame.
#[derive(Debug, Clone)]
pub struct CompletedFrame {
    pub index: u64,
    pub draw_count: usize,
    pub skipped_draws: usize,
    pub internal_hash: u64,
    pub presented_hash: u64,
    pub handle_signature: Vec<u32>,
}

/// Whether `s` ascends strictly.
pub open spec fn strictly_ascending(s: Seq<u32>) -> bool {
    forall|i: int, j: int| 0 <= i < j < s.len() ==> s[i] < s[j]
}

/// `v` in ascending order; it holds no value twice.
fn sort_distinct_u32(v: Vec<u32>) -> (out: Vec<u32>)
    requires
        v@.no_duplicates(),
    ensures
        out@.to_set() == v@.to_set(),
        out@.len() == v@.len(),
        strictly_ascending(out@),
{
    let mut out: Vec<u32> = Vec::new();
    let mut k: usize = 0;
    while k < v.len()
        invariant
            k <= v@.len(),
            v@.no_duplicates(),
            out@.to_set() == v@.take(k as int).to_set(),
            out@.len() == k,
            strictly_ascending(out@),
        decreases v@.len() - k,
    {
        let x = v[k];
        let mut p: usize = 0;
        while p < out.len() && out[p] < x
            invariant
                p <= out@.len(),
                forall|q: int| 0 <= q < p ==> out@[q] < x,
            decreases out@.len() - p,
        {
            p += 1;
        }
        proof {
            assert(!v@.take(k as int).contains(x)) by {
                if v@.take(k as int).contains(x) {
                    let w = choose|w: int| 0 <= w < k && v@.take(k as int)[w] == x;
                    assert(v@[w] == v@[k as int]);
                }
            }
            assert(!out@.to_set().contains(x));
            if p < out@.len() {
                assert(out@[p as int] != x) by {
                    assert(out@.to_set().contains(out@[p as int]));
                }
            }
        }
        let ghost old_out = out@;
        out.insert(p, x);
        proof {
            assert(v@.take(k + 1) =~= v@.take(k as int).push(x));
            assert(out@.to_set() =~= old_out.to_set().insert(x)) by {
                assert forall|y: u32| out@.to_set().contains(y) <==> old_out.to_set().insert(x).contains(y) by {
                    if out@.to_set().contains(y) {
                        let w = choose|w: int| 0 <= w < out@.len() && out@[w] == y;
                        if w < p {
                            assert(old_out[w] == y);
                        } else if w > p {
                            assert(old_out[w - 1] == y);
                        }
                    }
                    if old_out.to_set().contains(y) {
                        let w = choose|w: int| 0 <= w < old_out.len() && old_out[w] == y;
                        if w < p {
                            assert(out@[w] == y);
                        } else {
                            assert(out@[w + 1] == y);
                        }
                    }
                    if y == x {
                        assert(out@[p as int] == x);
                    }
                }
            }
            assert(v@.take(k + 1).to_set() =~= v@.take(k as int).to_set().insert(x)) by {
                assert forall|y: u32| v@.take(k + 1).to_set().contains(y) <==> v@.take(k as int).to_set().insert(x).contains(y) by {
                    let t0 = v@.take(k as int);
                    let t1 = v@.take(k + 1);
                    if t1.to_set().contains(y) {
                        let w = choose|w: int| 0 <= w < t1.len() && t1[w] == y;
                        if w < k {
                            assert(t0[w] == y);
                        }
                    }
                    if t0.to_set().contains(y) {
                        let w = choose|w: int| 0 <= w < t0.len() && t0[w] == y;
                        assert(t1[w] == y);
                    }
                    if y == x {
                        assert(t1[k as int] == x);
                    }
                }
            }
            assert forall|i: int, j: int| 0 <= i < j < out@.len() implies out@[i] < out@[j] by {
                if j < p {
                    assert(out@[i] == old_out[i] && out@[j] == old_out[j]);
                } else if i > p {
                    assert(out@[i] == old_out[i - 1] && out@[j] == old_out[j - 1]);
                } else if i < p && j > p {
                    assert(out@[i] == old_out[i] && out@[j] == old_out[j - 1]);
                    assert(old_out[i] < x);
                    assert(old_out[p as int] >= x);
                } else if j == p {
                    assert(out@[i] == old_out[i]);
                } else {
                    assert(out@[j] == old_out[j - 1]);
                    assert(old_out[p as int] >= x);
                    assert(old_out[p as int] != x) by {
                        assert(old_out.to_set().contains(old_out[p as int]));
                    }
                }
            }
        }
        k += 1;
    }
    assert(v@.take(v@.len() as int) =~= v@);
    out
}

/// How a pushed character code shows in a diagnostic line: printable
/// ASCII as itself, anything else as a dot.
pub open spec fn diag_char(c: u32) -> char {
    if 0x20 <= c < 0x7f { c as char } else { '.' }
}

/// The characters of `seq` as `diag_char` shows them.
pub open spec fn diag_ascii(seq: Seq<u32>) -> Seq<char> {
    seq.map_values(|c: u32| diag_char(c))
}

/// The codes of `seq` as `0x..` entries joined by commas.
pub open spec fn diag_hex(seq: Seq<u32>) -> Seq<char>
    decreases seq.len(),
{
    if seq.len() == 0 {
        Seq::empty()
    } else if seq.len() == 1 {
        "0x"@ + hex_pad(seq[0] as nat, 2)
    } else {
        diag_hex(seq.drop_last()) + ","@ + "0x"@ + hex_pad(seq.last() as nat, 2)
    }
}

/// One diagnostic line for a text object: its pushed characters and how
/// many draws consumed, flagged when the two differ.
pub open spec fn diag_line(frame: u64, text_obj: u32, seq: Seq<u32>, consumed: usize) -> Seq<char> {
    "text_char_diag frame="@ + dec_min(frame as nat) + " text_obj="@ + hex_prefixed(text_obj as nat, 10)
        + " pushed="@ + dec_min(seq.len()) + " consumed="@ + dec_min(consumed as nat) + " ascii=\""@
        + diag_ascii(seq) + "\" hex=["@ + diag_hex(seq) + "]"@
        + (if seq.len() != consumed { " MISMATCH"@ } else { Seq::<char>::empty() })
}

/// How far a draw's texture coordinates reach along one axis: the texel
/// extent a texture needs, and whether the far edge is a whole coordinate
/// (which may overrun the texture by one, relying on edge clamping).
#[derive(Debug, Clone, Copy, PartialEq, Eq, Structural)]
pub struct UvNeed {
    pub extent: usize,
    pub integer_edge: bool,
}

/// Whether a texture side of `upload_extent` texels serves `need`.
pub open spec fn serves(upload_extent: usize, need: UvNeed) -> bool {
    upload_extent >= need.extent || (upload_extent > 0 && need.extent == upload_extent + 1 && need.integer_edge)
}

pub fn texture_extent_contains(upload_extent: usize, need: UvNeed) -> (b: bool)
    ensures
        b == serves(upload_extent, need),
{
    upload_extent >= need.extent
        || (upload_extent > 0 && need.extent == upload_extent.saturating_add(1) && need.integer_edge)
}

/// The texel count of an upload.
pub open spec fn area(u: LiveGlUpload) -> int {
    u.width * u.height
}

/// Whether `a` comes before `b` by (area, index).
pub open spec fn smaller_upload(a: LiveGlUpload, b: LiveGlUpload) -> bool {
    area(a) < area(b) || (area(a) == area(b) && a.index < b.index)
}

/// Among the first `upto` uploads satisfying `ok`, the position of the
/// first one that is smallest by (area, index).
pub open spec fn smallest_upload(s: Seq<LiveGlUpload>, ok: spec_fn(LiveGlUpload) -> bool, upto: int) -> Option<int>
    decreases upto,
{
    if upto <= 0 || upto > s.len() {
        None
    } else {
        let prev = smallest_upload(s, ok, upto - 1);
        if ok(s[upto - 1]) && (prev matches Some(p) ==> smaller_upload(s[upto - 1], s[p])) {
            Some(upto - 1)
        } else {
            prev
        }
    }
}

proof fn lemma_smallest_upload_bounds(s: Seq<LiveGlUpload>, ok: spec_fn(LiveGlUpload) -> bool, upto: int)
    ensures
        smallest_upload(s, ok, upto) matches Some(p) ==> 0 <= p < upto <= s.len() && ok(s[p]),
    decreases upto,
{
    if 0 < upto <= s.len() {
        lemma_smallest_upload_bounds(s, ok, upto - 1);
    }
}

/// The smallest pick satisfies `ok`, and no upload among the first `upto`
/// that satisfies `ok` comes before it by (area, index); an upload that
/// ties with it comes no earlier.
pub proof fn lemma_smallest_upload_is_least(s: Seq<LiveGlUpload>, ok: spec_fn(LiveGlUpload) -> bool, upto: int, i: int)
    requires
        upto <= s.len(),
    ensures
        smallest_upload(s, ok, upto) matches Some(p) ==> 0 <= p < upto && ok(s[p]),
        (0 <= i < upto && ok(s[i])) ==> (smallest_upload(s, ok, upto) matches Some(p)
            && !smaller_upload(s[i], s[p]) && (area(s[i]) == area(s[p]) && s[i].index == s[p].index ==> p <= i)),
    decreases upto,
{
    if upto > 0 {
        lemma_smallest_upload_is_least(s, ok, upto - 1, i);
    }
}

/// The last of the first `upto` uploads satisfying `ok`.
pub open spec fn last_upload(s: Seq<LiveGlUpload>, ok: spec_fn(LiveGlUpload) -> bool, upto: int) -> Option<int>
    decreases upto,
{
    if upto <= 0 || upto > s.len() {
        None
    } else if ok(s[upto - 1]) {
        Some(upto - 1)
    } else {
        last_upload(s, ok, upto - 1)
    }
}

proof fn lemma_last_upload_bounds(s: Seq<LiveGlUpload>, ok: spec_fn(LiveGlUpload) -> bool, upto: int)
    ensures
        last_upload(s, ok, upto) matches Some(p) ==> 0 <= p < upto <= s.len() && ok(s[p]),
    decreases upto,
{
    if 0 < upto <= s.len() {
        lemma_last_upload_bounds(s, ok, upto - 1);
    }
}

/// The first upload from position `from` on satisfying `ok`.
pub open spec fn first_upload(s: Seq<LiveGlUpload>, ok: spec_fn(LiveGlUpload) -> bool, from: int) -> Option<int>
    decreases s.len() - from,
{
    if from < 0 || from >= s.len() {
        None
    } else if ok(s[from]) {
        Some(from)
    } else {
        first_upload(s, ok, from + 1)
    }
}

/// A decoded A8 upload at least `need_w` x `need_h` whose sides are
/// multiples of a `cell_w` x `cell_h` glyph cell, 32 or more cells across.
pub open spec fn font_atlas_ok(cell_w: int, cell_h: int, need_w: usize, need_h: usize) -> spec_fn(LiveGlUpload) -> bool {
    |u: LiveGlUpload| u.texture is Some && u.format == Some(TextureFormat::A8) && u.width >= need_w
        && u.height >= need_h && (u.width as int) % cell_w == 0 && (u.height as int) % cell_h == 0
        && (u.width as int) / cell_w >= 32
}

/// A decoded upload that serves both coordinate needs.
pub open spec fn containing_ok(need_u: UvNeed, need_v: UvNeed) -> spec_fn(LiveGlUpload) -> bool {
    |u: LiveGlUpload| u.texture is Some && serves(u.width, need_u) && serves(u.height, need_v)
}

/// A decoded upload named `tex_name` that serves both coordinate needs.
pub open spec fn named_containing_ok(tex_name: u32, need_u: UvNeed, need_v: UvNeed) -> spec_fn(LiveGlUpload) -> bool {
    |u: LiveGlUpload| u.texture is Some && u.tex_name == Some(tex_name) && serves(u.width, need_u)
        && serves(u.height, need_v)
}

/// A decoded upload named `tex_name` of exactly `w` x `h`.
pub open spec fn named_span_ok(tex_name: u32, w: usize, h: usize) -> spec_fn(LiveGlUpload) -> bool {
    |u: LiveGlUpload| u.texture is Some && u.tex_name == Some(tex_name) && u.width == w && u.height == h
}

/// A decoded upload within 64 texels of the screen size or larger.
pub open spec fn popcap_ok() -> spec_fn(LiveGlUpload) -> bool {
    |u: LiveGlUpload| u.texture is Some && u.width >= FB_WIDTH - 64 && u.height >= FB_HEIGHT - 64
}

/// A decoded, unnamed, fileless 512 x 256 upload.
pub open spec fn splash_ok() -> spec_fn(LiveGlUpload) -> bool {
    |u: LiveGlUpload| u.texture is Some && u.width == 512 && u.height == 256 && u.tex_name is None
        && u.source_file is None
}

/// A position as a `usize`.
pub open spec fn as_position(p: Option<int>) -> Option<usize> {
    match p {
        Some(q) => Some(q as usize),
        None => None,
    }
}

/// The `index` of the upload at position `p`, if any.
pub open spec fn index_at(s: Seq<LiveGlUpload>, p: Option<int>) -> Option<usize> {
    match p {
        Some(q) => Some(s[q].index),
        None => None,
    }
}

/// Whether upload `a` is smaller than upload `b` by (area, index).
fn upload_smaller(a: &LiveGlUpload, b: &LiveGlUpload) -> (r: bool)
    ensures
        r == smaller_upload(*a, *b),
{
    assert((a.width as u128) * (a.height as u128) <= u128::MAX) by (nonlinear_arith)
        requires a.width <= usize::MAX, a.height <= usize::MAX, usize::MAX <= u64::MAX;
    assert((b.width as u128) * (b.height as u128) <= u128::MAX) by (nonlinear_arith)
        requires b.width <= usize::MAX, b.height <= usize::MAX, usize::MAX <= u64::MAX;
    let aa = (a.width as u128) * (a.height as u128);
    let ba = (b.width as u128) * (b.height as u128);
    aa < ba || (aa == ba && a.index < b.index)
}

/// The PopCap board ordering key: RGB565 first, then closeness to the
/// screen size, then area (saturating), then index.
pub open spec fn popcap_key(u: LiveGlUpload) -> (int, int, int, int) {
    (
        if u.format == Some(TextureFormat::Rgb565) { 0 } else { 1 },
        (if u.width >= FB_WIDTH { u.width - FB_WIDTH } else { FB_WIDTH - u.width })
            + (if u.height >= FB_HEIGHT { u.height - FB_HEIGHT } else { FB_HEIGHT - u.height }),
        if u.width * u.height > usize::MAX { usize::MAX as int } else { u.width * u.height },
        u.index as int,
    )
}

pub open spec fn key4_lt(a: (int, int, int, int), b: (int, int, int, int)) -> bool {
    a.0 < b.0 || (a.0 == b.0 && (a.1 < b.1 || (a.1 == b.1 && (a.2 < b.2 || (a.2 == b.2 && a.3 < b.3)))))
}

/// Among the first `upto` uploads satisfying `ok`, the position of the
/// first one least by `popcap_key`.
pub open spec fn least_popcap(s: Seq<LiveGlUpload>, ok: spec_fn(LiveGlUpload) -> bool, upto: int) -> Option<int>
    decreases upto,
{
    if upto <= 0 || upto > s.len() {
        None
    } else {
        let prev = least_popcap(s, ok, upto - 1);
        if ok(s[upto - 1]) && (prev matches Some(p) ==> key4_lt(popcap_key(s[upto - 1]), popcap_key(s[p]))) {
            Some(upto - 1)
        } else {
            prev
        }
    }
}

proof fn lemma_least_popcap_bounds(s: Seq<LiveGlUpload>, ok: spec_fn(LiveGlUpload) -> bool, upto: int)
    ensures
        least_popcap(s, ok, upto) matches Some(p) ==> 0 <= p < upto <= s.len() && ok(s[p]),
    decreases upto,
{
    if 0 < upto <= s.len() {
        lemma_least_popcap_bounds(s, ok, upto - 1);
    }
}

fn popcap_key_exec(u: &LiveGlUpload) -> (k: (u8, u128, u128, usize))
    ensures
        (k.0 as int, k.1 as int, k.2 as int, k.3 as int) == popcap_key(*u),
{
    let penalty: u8 = if u.format == Some(TextureFormat::Rgb565) { 0 } else { 1 };
    let dw = if u.width >= FB_WIDTH { u.width - FB_WIDTH } else { FB_WIDTH - u.width };
    let dh = if u.height >= FB_HEIGHT { u.height - FB_HEIGHT } else { FB_HEIGHT - u.height };
    let dist = dw as u128 + dh as u128;
    assert((u.width as u128) * (u.height as u128) <= u128::MAX) by (nonlinear_arith)
        requires u.width <= usize::MAX, u.height <= usize::MAX, usize::MAX <= u64::MAX;
    let full = (u.width as u128) * (u.height as u128);
    let area: u128 = if full > usize::MAX as u128 { usize::MAX as u128 } else { full };
    (penalty, dist, area, u.index)
}

fn key4_less(a: (u8, u128, u128, usize), b: (u8, u128, u128, usize)) -> (r: bool)
    ensures
        r == key4_lt((a.0 as int, a.1 as int, a.2 as int, a.3 as int), (b.0 as int, b.1 as int, b.2 as int, b.3 as int)),
{
    a.0 < b.0 || (a.0 == b.0 && (a.1 < b.1 || (a.1 == b.1 && (a.2 < b.2 || (a.2 == b.2 && a.3 < b.3)))))
}

/// Persistent live graphics state of one game. Translations are
/// IEEE-754 single-precision bit patterns.
pub struct LiveGlState {
    pub uploads: Vec<LiveGlUpload>,
    /// Material handle -> upload index for resource-descriptor textures.
    pub resource_uploads_by_handle: HashMap<u32, usize>,
    /// Texture name from the latest resource descriptor, for the next upload.
    pub pending_tex_name: Option<u32>,
    /// Texture name of the latest bind.
    pub bound_tex_name: Option<u32>,
    pub arrays: HashMap<u32, LiveArrayDef>,
    pub enabled_arrays: HashSet<u32>,
    pub current_handle: u32,
    pub current_state_ptr: u32,
    pub current_material_epoch: u64,
    pub translation: (u32, u32),
    pub frame_base_translation: (u32, u32),
    pub board_base_translation_valid: bool,
    pub frame_material_bound: bool,
    /// Draw count of the preceding frame.
    pub previous_frame_draw_count: usize,
    pub use_incremental_translation: bool,
    /// Colour used by a colour-buffer clear.
    pub clear_color: Rgba8,
    /// Current fixed-function colour register.
    pub modulate: Rgba8,
    pub pointer_text_carry_handle: Option<u32>,
    pub pointer_text_carry: (u32, u32),
    pub framebuffer: Vec<Rgba8>,
    pub draws: Vec<LiveDrawRecord>,
    pub draw_count_in_frame: usize,
    pub candidate_frames: usize,
    pub captured_first_frame: bool,
    pub present_vflip: bool,
    /// The current frame used normalized coordinates; such frames are
    /// presented without the vertical flip.
    pub ndc_frame: bool,
    pub gate_b: bool,
    pub continuous_capture: bool,
    pub last_frame_counter: u64,
    pub prev_draw_handles: Option<Vec<u32>>,
    pub lifecycle_log: Vec<String>,
    /// Ordered (ordinal, handle) calls of the current frame.
    pub ordinal_trace: Vec<(u32, u32)>,
    pub lifecycle_reports: Vec<String>,
    pub lifecycle_report_budget: usize,
    /// Most recent presented framebuffer.
    pub presented: Option<Vec<Rgba8>>,
    /// Last fully rendered frame.
    pub completed_buffer: Vec<Rgba8>,
    /// Host-facing presented buffer.
    pub presented_buffer: Vec<Rgba8>,
    /// Between a frame begin and its present.
    pub frame_active: bool,
    /// A DMA overlay was applied to the current frame.
    pub has_dma_overlay: bool,
    pub game_id: String,
    pub viewport_w: u32,
    pub viewport_h: u32,
    /// Count of presented frames.
    pub completed_frame_index: u64,
    pub candidate_begin_ordinal: u32,
    pub candidate_present_ordinal: u32,
    pub skipped_draws_this_frame: usize,
    pub frame_anomalies: Vec<String>,
    pub diagnostics_budget: usize,
    pub dump_remaining: usize,
    pub dump_counter: usize,
    pub first_presented_hash: Option<u64>,
    pub prev_presented_hash: Option<u64>,
    pub first_changed_frame: Option<u64>,
    pub unique_presented_hashes: HashSet<u64>,
    pub repeated_presented_count: u64,
    /// Characters pushed per text object this frame.
    pub text_char_seqs: HashMap<u32, Vec<u32>>,
    /// How many of them draws have consumed.
    pub text_char_consumed: HashMap<u32, usize>,
}

/// A transparent black pixel.
pub open spec fn clear_pixel() -> Rgba8 {
    Rgba8 { r: 0, g: 0, b: 0, a: 0 }
}

/// `n` copies of `px`.
fn filled(px: Rgba8, n: usize) -> (v: Vec<Rgba8>)
    ensures
        v@ == Seq::new(n as nat, |_i: int| px),
{
    let mut v: Vec<Rgba8> = Vec::new();
    let mut k: usize = 0;
    while k < n
        invariant
            k <= n,
            v@ == Seq::new(k as nat, |_i: int| px),
        decreases n - k,
    {
        v.push(px);
        k += 1;
        assert(v@ =~= Seq::new(k as nat, |_i: int| px));
    }
    v
}

/// A copy of a pixel buffer.
fn copy_pixels(src: &[Rgba8]) -> (v: Vec<Rgba8>)
    ensures
        v@ == src@,
{
    let mut v: Vec<Rgba8> = Vec::new();
    let mut k: usize = 0;
    while k < src.len()
        invariant
            k <= src@.len(),
            v@ == src@.take(k as int),
        decreases src.len() - k,
    {
        v.push(src[k]);
        k += 1;
        assert(v@ =~= src@.take(k as int));
    }
    assert(src@.take(src@.len() as int) =~= src@);
    v
}

/// The tile-composition title whose surface persists between frames.
pub open spec fn is_incremental_title(game_id: Seq<char>) -> bool {
    game_id == "66666"@
}

/// What presentation shows of `fb`: flipped when the flip is enabled and the
/// frame did not use normalized coordinates.
pub open spec fn presented_view(fb: Seq<Rgba8>, vflip: bool, ndc: bool) -> Seq<Rgba8> {
    if vflip && !ndc {
        flipped_rows(fb, FB_WIDTH as int, FB_HEIGHT as int)
    } else {
        fb
    }
}

/// The anomaly log after offering `msg`: a message is kept only while the
/// log holds fewer than four times the diagnostics budget.
pub open spec fn offer(log: Seq<Seq<char>>, budget: int, msg: Seq<char>) -> Seq<Seq<char>> {
    if log.len() < budget * 4 {
        log.push(msg)
    } else {
        log
    }
}

/// `stale_array_state_at_begin ordinal={ord} leaked_arrays={n}`.
pub open spec fn stale_arrays_msg(ord: u32, n: nat) -> Seq<char> {
    with_dec(with_dec("stale_array_state_at_begin ordinal="@, ord as nat) + " leaked_arrays="@, n)
}

/// `incomplete_frame double_begin ordinal={ord} previous_not_presented draws={n}`.
pub open spec fn double_begin_msg(ord: u32, n: nat) -> Seq<char> {
    with_dec(with_dec("incomplete_frame double_begin ordinal="@, ord as nat) + " previous_not_presented draws="@, n)
}

/// `present_without_active_frame ordinal={ord}`.
pub open spec fn present_without_frame_msg(ord: u32) -> Seq<char> {
    with_dec("present_without_active_frame ordinal="@, ord as nat)
}

/// `clear_without_draws ordinal={ord} (present with zero draws)`.
pub open spec fn clear_without_draws_msg(ord: u32) -> Seq<char> {
    with_dec("clear_without_draws ordinal="@, ord as nat) + " (present with zero draws)"@
}

/// `unexpected_draw_count ordinal={ord} draws={n} (steady=4)`.
pub open spec fn unexpected_draws_msg(ord: u32, n: nat) -> Seq<char> {
    with_dec(with_dec("unexpected_draw_count ordinal="@, ord as nat) + " draws="@, n) + " (steady=4)"@
}

/// `{prefix}{n}`.
pub open spec fn with_dec(prefix: Seq<char>, n: nat) -> Seq<char> {
    prefix + dec_min(n)
}

/// The handles of `draws`, in order.
fn draw_handles(draws: &Vec<LiveDrawRecord>) -> (out: Vec<u32>)
    ensures
        out@ == draws@.map_values(|d: LiveDrawRecord| d.handle),
{
    let mut out: Vec<u32> = Vec::new();
    let mut k: usize = 0;
    while k < draws.len()
        invariant
            k <= draws@.len(),
            out@ == draws@.take(k as int).map_values(|d: LiveDrawRecord| d.handle),
        decreases draws@.len() - k,
    {
        out.push(draws[k].handle);
        k += 1;
        assert(out@ =~= draws@.take(k as int).map_values(|d: LiveDrawRecord| d.handle));
    }
    assert(draws@.take(draws@.len() as int) =~= draws@);
    out
}

/// Frame-surface ordinals (begin, present and the surface call between).
pub open spec fn is_surface_ordinal(o: u32) -> bool {
    o == 157 || o == 158 || o == 165
}

/// How many draw calls (ordinal 37) `t` holds.
pub open spec fn draws_in(t: Seq<(u32, u32)>) -> nat
    decreases t.len(),
{
    if t.len() == 0 {
        0
    } else {
        draws_in(t.drop_last()) + if t.last().0 == 37 { 1nat } else { 0nat }
    }
}

/// The first surface ordinal in `t`.
pub open spec fn first_surface(t: Seq<(u32, u32)>) -> Option<u32>
    decreases t.len(),
{
    if t.len() == 0 {
        None
    } else if first_surface(t.drop_last()) is Some {
        first_surface(t.drop_last())
    } else if is_surface_ordinal(t.last().0) {
        Some(t.last().0)
    } else {
        None
    }
}

/// The last surface ordinal in `t`.
pub open spec fn last_surface(t: Seq<(u32, u32)>) -> Option<u32>
    decreases t.len(),
{
    if t.len() == 0 {
        None
    } else if is_surface_ordinal(t.last().0) {
        Some(t.last().0)
    } else {
        last_surface(t.drop_last())
    }
}

/// One trace entry: draws are numbered from 1 (`37#n`), surface and
/// material-bind calls show their handle (`158(h0x2)`), others their
/// ordinal alone.
pub open spec fn trace_entry(o: u32, h: u32, draw_number: nat) -> Seq<char> {
    if o == 37 {
        "37#"@ + dec_min(draw_number)
    } else if is_surface_ordinal(o) || o == 159 {
        dec_min(o as nat) + "(h"@ + hex_prefixed(h as nat, 0) + ")"@
    } else {
        dec_min(o as nat)
    }
}

/// The comma-separated entries of `t`.
pub open spec fn render_trace(t: Seq<(u32, u32)>) -> Seq<char>
    decreases t.len(),
{
    if t.len() == 0 {
        Seq::empty()
    } else {
        let prev = render_trace(t.drop_last());
        (if t.len() > 1 { prev + ","@ } else { prev }) + trace_entry(t.last().0, t.last().1, draws_in(t))
    }
}

/// A surface ordinal, or `none`.
pub open spec fn surface_text(o: Option<u32>) -> Seq<char> {
    match o {
        Some(x) => dec_min(x as nat),
        None => "none"@,
    }
}

/// `lifecycle frame={} draws={} first_surface={} last_surface={} trace=[{}]`.
pub open spec fn trace_summary(frame_index: u64, draw_count: usize, t: Seq<(u32, u32)>) -> Seq<char> {
    "lifecycle frame="@ + dec_min(frame_index as nat) + " draws="@ + dec_min(draw_count as nat)
        + " first_surface="@ + surface_text(first_surface(t)) + " last_surface="@ + surface_text(last_surface(t))
        + " trace=["@ + render_trace(t) + "]"@
}

/// Append `surface_text(o)`.
fn push_surface(out: &mut String, o: Option<u32>)
    ensures
        final(out)@ == old(out)@ + surface_text(o),
{
    proof {
        reveal_strlit("none");
    }
    match o {
        Some(x) => push_dec(out, x as u64),
        None => out.append("none"),
    }
}

/// The `width` x `height` block of `fb` read bottom-up from (`x`, `y`).
fn copy_block(fb: &[Rgba8], x: i64, y: i64, width: usize, height: usize) -> (pixels: Vec<Rgba8>)
    requires
        fb@.len() >= FB_PIXELS,
        0 < width <= 2048,
        0 < height <= 2048,
        y >= 239 - i64::MAX,
        y + height - 1 <= i64::MAX,
        x + width - 1 <= i64::MAX,
    ensures
        pixels@ == Seq::new((width * height) as nat, |i: int| copied_pixel(fb@, x as int, y as int, i / (width as int), i % (width as int))),
{
    let ghost w = width as int;
    let mut pixels: Vec<Rgba8> = Vec::new();
    let mut row: usize = 0;
    while row < height
        invariant
            fb@.len() >= FB_PIXELS,
            0 < width <= 2048,
            0 < height <= 2048,
            w == width,
            row <= height,
            y >= 239 - i64::MAX,
            y + height - 1 <= i64::MAX,
            x + width - 1 <= i64::MAX,
            pixels@ == Seq::new((row * width) as nat, |i: int| copied_pixel(fb@, x as int, y as int, i / w, i % w)),
        decreases height - row,
    {
        let source_y: i64 = FB_HEIGHT as i64 - 1 - (y + row as i64);
        let mut col: usize = 0;
        while col < width
            invariant
                fb@.len() >= FB_PIXELS,
                0 < width <= 2048,
                w == width,
                row < height <= 2048,
                col <= width,
                x + width - 1 <= i64::MAX,
                source_y == FB_HEIGHT - 1 - (y + row),
                pixels@ == Seq::new((row * width + col) as nat, |i: int| copied_pixel(fb@, x as int, y as int, i / w, i % w)),
            decreases width - col,
        {
            let source_x: i64 = x + col as i64;
            let px = if source_x < 0 || source_y < 0 || source_x >= FB_WIDTH as i64 || source_y >= FB_HEIGHT as i64 {
                Rgba8::rgba(0, 0, 0, 255)
            } else {
                fb[source_y as usize * FB_WIDTH + source_x as usize]
            };
            proof {
                lemma_fundamental_div_mod_converse(row * width + col, w, row as int, col as int);
            }
            pixels.push(px);
            col += 1;
            assert(pixels@ =~= Seq::new((row * width + col) as nat, |i: int| copied_pixel(fb@, x as int, y as int, i / w, i % w)));
        }
        row += 1;
        assert(pixels@ =~= Seq::new((row * width) as nat, |i: int| copied_pixel(fb@, x as int, y as int, i / w, i % w))) by {
            assert((row - 1) * width + width == row * width) by (nonlinear_arith);
        }
    }
    assert(height * width == width * height) by (nonlinear_arith);
    pixels
}

/// Whether upload `u` is named `name` (and, when `decoded_only`, decoded).
pub open spec fn named(u: LiveGlUpload, name: u32, decoded_only: bool) -> bool {
    u.tex_name == Some(name) && (!decoded_only || u.texture is Some)
}

/// A found upload lies below the search bound, is named, and no later one
/// below the bound is.
pub proof fn lemma_last_with_name_bounds(s: Seq<LiveGlUpload>, name: u32, decoded_only: bool, upto: int)
    ensures
        last_with_name(s, name, decoded_only, upto) matches Some(p) ==> {
            &&& 0 <= p < upto <= s.len()
            &&& named(s[p], name, decoded_only)
            &&& forall|q: int| p < q < upto ==> !named(#[trigger] s[q], name, decoded_only)
        },
        last_with_name(s, name, decoded_only, upto) is None && 0 <= upto <= s.len()
            ==> forall|q: int| 0 <= q < upto ==> !named(#[trigger] s[q], name, decoded_only),
    decreases upto,
{
    if 0 < upto <= s.len() {
        lemma_last_with_name_bounds(s, name, decoded_only, upto - 1);
    }
}

/// A named upload with no named one after it (below the bound) is the one
/// found.
pub proof fn lemma_last_with_name_found(s: Seq<LiveGlUpload>, name: u32, decoded_only: bool, upto: int, p: int)
    requires
        0 <= p < upto <= s.len(),
        named(s[p], name, decoded_only),
        forall|q: int| p < q < upto ==> !named(#[trigger] s[q], name, decoded_only),
    ensures
        last_with_name(s, name, decoded_only, upto) == Some(p),
    decreases upto,
{
    if upto - 1 != p {
        assert(!named(s[upto - 1], name, decoded_only));
        lemma_last_with_name_found(s, name, decoded_only, upto - 1, p);
    }
}

/// The position of the last upload named `tex_name`.
fn last_upload_named(uploads: &Vec<LiveGlUpload>, tex_name: u32) -> (r: Option<usize>)
    ensures
        r matches Some(p) ==> p < uploads@.len()
            && last_with_name(uploads@, tex_name, false, uploads@.len() as int) == Some(p as int),
        r is None ==> last_with_name(uploads@, tex_name, false, uploads@.len() as int) is None,
{
    proof {
        lemma_last_with_name_bounds(uploads@, tex_name, false, uploads@.len() as int);
    }
    let mut k: usize = uploads.len();
    while k > 0
        invariant
            k <= uploads@.len(),
            last_with_name(uploads@, tex_name, false, uploads@.len() as int)
                == last_with_name(uploads@, tex_name, false, k as int),
        decreases k,
    {
        if uploads[k - 1].tex_name == Some(tex_name) {
            return Some(k - 1);
        }
        k -= 1;
    }
    None
}

/// A file of a game bundle as read from disk: its displayed path, file
/// name, extension (without the dot) and bytes.
pub struct BundleFile {
    pub display: String,
    pub file_name: String,
    pub extension: String,
    pub data: Vec<u8>,
}

/// The file decodes as a manifest image.
pub open spec fn bundle_file_decodes(f: BundleFile) -> bool {
    manifest_kind_spec(f.extension@) matches Some(k) && manifest_valid(k, f.data@)
}

/// How many of `files` decode.
pub open spec fn count_decoded(files: Seq<BundleFile>) -> nat
    decreases files.len(),
{
    if files.len() == 0 {
        0
    } else {
        count_decoded(files.drop_last()) + if bundle_file_decodes(files.last()) { 1nat } else { 0nat }
    }
}

/// The `Debug` name of a texture format.
pub open spec fn format_name(f: TextureFormat) -> Seq<char> {
    match f {
        TextureFormat::Rgb565 => "Rgb565"@,
        TextureFormat::Rgba5551 => "Rgba5551"@,
        TextureFormat::Rgba4444 => "Rgba4444"@,
        TextureFormat::Rgba8888 => "Rgba8888"@,
        TextureFormat::LuminanceAlpha88 => "LuminanceAlpha88"@,
        TextureFormat::A8 => "A8"@,
    }
}

/// Append the `Debug` name of `f`.
pub fn push_format_name(out: &mut String, f: TextureFormat)
    ensures
        final(out)@ == old(out)@ + format_name(f),
{
    proof {
        reveal_strlit("Rgb565");
        reveal_strlit("Rgba5551");
        reveal_strlit("Rgba4444");
        reveal_strlit("Rgba8888");
        reveal_strlit("LuminanceAlpha88");
        reveal_strlit("A8");
    }
    match f {
        TextureFormat::Rgb565 => out.append("Rgb565"),
        TextureFormat::Rgba5551 => out.append("Rgba5551"),
        TextureFormat::Rgba4444 => out.append("Rgba4444"),
        TextureFormat::Rgba8888 => out.append("Rgba8888"),
        TextureFormat::LuminanceAlpha88 => out.append("LuminanceAlpha88"),
        TextureFormat::A8 => out.append("A8"),
    }
}

/// `preloaded tex#{name} <- {file} ({w}x{h}, {format:?})`.
pub open spec fn preload_msg(name: u32, file: Seq<char>, w: usize, h: usize, f: TextureFormat) -> Seq<char> {
    "preloaded tex#"@ + dec_min(name as nat) + " <- "@ + file + " ("@ + dec_min(w as nat) + "x"@
        + dec_min(h as nat) + ", "@ + format_name(f) + ")"@
}

/// Every upload's `index` is its position in the list. A new state has
/// no uploads, and every operation that adds or replaces uploads keeps
/// this.
pub open spec fn positions_indexed(s: Seq<LiveGlUpload>) -> bool {
    forall|i: int| 0 <= i < s.len() ==> #[trigger] s[i].index == i
}

/// `u`, at position `pos`, is the texture decoded from `f` under name `name`.
pub open spec fn preloaded_upload(u: LiveGlUpload, f: BundleFile, pos: int, name: u32) -> bool {
    &&& u.index == pos
    &&& u.target == 0
    &&& u.source_ptr == 0
    &&& u.source_file matches Some(path) && path@ == f.display@
    &&& u.source_file_offset is None
    &&& u.tex_name == Some(name)
    &&& u.format matches Some(fmt)
    &&& (u.source_format, u.pixel_type) == manifest_gl_format_spec(fmt)
    &&& u.texture matches Some(t)
    &&& u.width == t.width && u.height == t.height
    &&& manifest_kind_spec(f.extension@) matches Some(k)
    &&& manifest_decodes_to(k, f.data@, DecodedManifestTexture { width: t.width, height: t.height, pixels: t.pixels, format: fmt })
}

/// The texture name given to the `n`-th decoded file: 1, 2, ... (wrapping).
pub open spec fn preload_name(n: nat) -> u32 {
    ((1 + n) % 0x1_0000_0000) as u32
}

/// `after` is `before` with one upload per decoded file of `files`
/// appended in order, named 1, 2, ...; `lines` reports each.
pub open spec fn preloaded(before: Seq<LiveGlUpload>, after: Seq<LiveGlUpload>, files: Seq<BundleFile>, lines: Seq<Seq<char>>) -> bool
    decreases files.len(),
{
    if files.len() == 0 {
        after == before && lines.len() == 0
    } else {
        let f = files.last();
        if bundle_file_decodes(f) {
            let name = preload_name(count_decoded(files.drop_last()));
            &&& after.len() >= 1 && lines.len() >= 1
            &&& preloaded(before, after.drop_last(), files.drop_last(), lines.drop_last())
            &&& preloaded_upload(after.last(), f, after.len() - 1, name)
            &&& lines.last() == preload_msg(name, f.file_name@, after.last().width, after.last().height,
                after.last().format->0)
        } else {
            preloaded(before, after, files.drop_last(), lines)
        }
    }
}

/// Preloading bundle images keeps every upload at its own index.
pub proof fn lemma_preload_keeps_positions(before: Seq<LiveGlUpload>, after: Seq<LiveGlUpload>,
    files: Seq<BundleFile>, lines: Seq<Seq<char>>)
    requires
        positions_indexed(before),
        preloaded(before, after, files, lines),
    ensures
        positions_indexed(after),
    decreases files.len(),
{
    if files.len() > 0 {
        let f = files.last();
        if bundle_file_decodes(f) {
            lemma_preload_keeps_positions(before, after.drop_last(), files.drop_last(), lines.drop_last());
            assert forall|i: int| 0 <= i < after.len() implies #[trigger] after[i].index == i by {
                if i < after.len() - 1 {
                    assert(after[i] == after.drop_last()[i]);
                }
            }
        } else {
            lemma_preload_keeps_positions(before, after, files.drop_last(), lines);
        }
    }
}

/// An opaque white pixel, the tint of alpha-only textures.
pub open spec fn white() -> Rgba8 {
    Rgba8 { r: 255, g: 255, b: 255, a: 255 }
}

/// `t` holds the `width` x `height` texels of `format` decoded from the
/// start of `payload`.
pub open spec fn decodes_upload(t: Texture, payload: Seq<u8>, width: int, height: int, format: TextureFormat) -> bool {
    &&& t.width == width
    &&& t.height == height
    &&& t.wf()
    &&& forall|i: int| 0 <= i < width * height ==> #[trigger] t.pixels@[i] == decode_texel(payload, i, format, white())
}

/// What `build_upload` records for the given upload arguments.
pub open spec fn upload_from_args(u: LiveGlUpload, index: usize, target: u32, width: u32, height: u32,
    source_format: u32, pixel_type: u32, source_ptr: u32, payload: Seq<u8>, tex_name: Option<u32>) -> bool {
    &&& u.index == index
    &&& u.target == target
    &&& u.width == width as usize
    &&& u.height == height as usize
    &&& u.source_format == source_format
    &&& u.pixel_type == pixel_type
    &&& u.source_ptr == source_ptr
    &&& u.source_file is None
    &&& u.source_file_offset is None
    &&& u.tex_name == tex_name
    &&& u.format == format_from_gl_spec(source_format, pixel_type)
    &&& match u.format {
        None => u.texture is None,
        Some(f) => if payload.len() < pix_payload_size_spec(f, width as int, height as int) {
            u.texture is None
        } else {
            u.texture matches Some(t) && decodes_upload(t, payload, width as int, height as int, f)
        },
    }
}

/// The first upload with a decoded texture of the given size, searching
/// positions `from..` of `s`.
pub open spec fn first_with_dims(s: Seq<LiveGlUpload>, w: usize, h: usize, from: int) -> Option<int>
    decreases s.len() - from,
{
    if from < 0 || from >= s.len() {
        None
    } else if s[from].texture is Some && s[from].width == w && s[from].height == h {
        Some(from)
    } else {
        first_with_dims(s, w, h, from + 1)
    }
}

/// The last of the first `upto` uploads whose texture name is `name` (and,
/// when `decoded_only`, that has a decoded texture).
pub open spec fn last_with_name(s: Seq<LiveGlUpload>, name: u32, decoded_only: bool, upto: int) -> Option<int>
    decreases upto,
{
    if upto <= 0 || upto > s.len() {
        None
    } else if s[upto - 1].tex_name == Some(name) && (!decoded_only || s[upto - 1].texture is Some) {
        Some(upto - 1)
    } else {
        last_with_name(s, name, decoded_only, upto - 1)
    }
}

/// Pixel (`row`, `col`) of a framebuffer copy whose lower-left source
/// corner is (`x`, `y`) in GL orientation: rows are read bottom-up, and
/// texels outside the framebuffer are opaque black.
pub open spec fn copied_pixel(fb: Seq<Rgba8>, x: int, y: int, row: int, col: int) -> Rgba8 {
    let sy = FB_HEIGHT - 1 - (y + row);
    let sx = x + col;
    if sx < 0 || sy < 0 || sx >= FB_WIDTH || sy >= FB_HEIGHT {
        Rgba8 { r: 0, g: 0, b: 0, a: 255 }
    } else {
        fb[sy * FB_WIDTH + sx]
    }
}

/// `t` is the `width` x `height` copy of `fb` at (`x`, `y`).
pub open spec fn copied_texture(t: Texture, fb: Seq<Rgba8>, x: int, y: int, width: int, height: int) -> bool {
    &&& t.width == width
    &&& t.height == height
    &&& t.pixels@ == Seq::new((width * height) as nat, |i: int| copied_pixel(fb, x, y, i / width, i % width))
}

/// A framebuffer copy of `w` x `h` at (`x`, `y`) holds, at texture row
/// `row` and column `col`, the framebuffer pixel in screen row
/// `239 - (y + row)` and column `x + col` (GL rows count upward from the
/// bottom of the 320 x 240 screen); where that lies off screen the texel is
/// opaque black.
pub proof fn lemma_copy_texels(t: Texture, fb: Seq<Rgba8>, x: int, y: int, w: int, h: int, row: int, col: int)
    requires
        copied_texture(t, fb, x, y, w, h),
        0 <= row < h,
        0 <= col < w,
    ensures
        t.pixels@[row * w + col] == if 0 <= x + col < 320 && 0 <= 239 - (y + row) < 240 {
            fb[(239 - (y + row)) * 320 + x + col]
        } else {
            Rgba8 { r: 0, g: 0, b: 0, a: 255 }
        },
{
    let i = row * w + col;
    lemma_fundamental_div_mod_converse(i, w, row, col);
    assert(0 <= i < w * h) by (nonlinear_arith)
        requires i == row * w + col, 0 <= row < h, 0 <= col < w;
}

/// An upload that now holds a framebuffer copy as RGBA8888.
pub open spec fn is_copy_upload(u: LiveGlUpload, fb: Seq<Rgba8>, x: int, y: int, width: usize, height: usize) -> bool {
    &&& u.width == width
    &&& u.height == height
    &&& u.source_format == 0x1908
    &&& u.pixel_type == 0x1401
    &&& u.source_ptr == 0
    &&& u.source_file is None
    &&& u.source_file_offset is None
    &&& u.format == Some(TextureFormat::Rgba8888)
    &&& u.texture matches Some(t) && copied_texture(t, fb, x, y, width as int, height as int)
}

/// `after` is `before` with the framebuffer copy stored in texture
/// `tex_name`: over the most recent upload of that name, else appended.
pub open spec fn copied_into(before: Seq<LiveGlUpload>, after: Seq<LiveGlUpload>, tex_name: u32, fb: Seq<Rgba8>,
    x: int, y: int, width: usize, height: usize) -> bool {
    let n = before.len();
    match last_with_name(before, tex_name, false, n as int) {
        Some(p) => {
            &&& after.len() == n
            &&& forall|q: int| 0 <= q < n && q != p ==> #[trigger] after[q] == before[q]
            &&& is_copy_upload(after[p], fb, x, y, width, height)
            &&& after[p].index == before[p].index
            &&& after[p].target == before[p].target
            &&& after[p].tex_name == Some(tex_name)
        },
        None => {
            &&& after.len() == n + 1
            &&& forall|q: int| 0 <= q < n ==> #[trigger] after[q] == before[q]
            &&& is_copy_upload(after[n as int], fb, x, y, width, height)
            &&& after[n as int].index == n
            &&& after[n as int].target == 0
            &&& after[n as int].tex_name == Some(tex_name)
        },
    }
}

/// Where a copy into `tex_name` lands in `before`.
pub open spec fn copy_slot(before: Seq<LiveGlUpload>, tex_name: u32) -> int {
    match last_with_name(before, tex_name, false, before.len() as int) {
        Some(p) => p,
        None => before.len() as int,
    }
}

/// A framebuffer copy into a texture name is what a later lookup of that
/// name (among decoded uploads) finds.
pub proof fn lemma_copy_then_select(before: Seq<LiveGlUpload>, after: Seq<LiveGlUpload>, tex_name: u32,
    fb: Seq<Rgba8>, x: int, y: int, width: usize, height: usize)
    requires
        copied_into(before, after, tex_name, fb, x, y, width, height),
    ensures
        last_with_name(after, tex_name, true, after.len() as int) == Some(copy_slot(before, tex_name)),
        is_copy_upload(after[copy_slot(before, tex_name)], fb, x, y, width, height),
{
    let n = before.len() as int;
    lemma_last_with_name_bounds(before, tex_name, false, n);
    let p = copy_slot(before, tex_name);
    assert forall|q: int| p < q < after.len() implies !named(#[trigger] after[q], tex_name, true) by {
        assert(after[q] == before[q]);
        assert(!named(before[q], tex_name, false));
    }
    lemma_last_with_name_found(after, tex_name, true, after.len() as int, p);
}

/// The characters pushed per text object after one more push of `c` for
/// `obj`.
pub open spec fn after_push(seqs: Map<u32, Seq<u32>>, obj: u32, c: u32) -> Map<u32, Seq<u32>> {
    seqs.insert(obj, if seqs.contains_key(obj) { seqs[obj].push(c) } else { seq![c] })
}

/// The consumption index of `obj` (0 when none is recorded).
pub open spec fn consumed_at(consumed: Map<u32, usize>, obj: u32) -> int {
    if consumed.contains_key(obj) { consumed[obj] as int } else { 0 }
}

/// What a take for `obj` returns: the character at its consumption index,
/// if any.
pub open spec fn take_result(seqs: Map<u32, Seq<u32>>, consumed: Map<u32, usize>, obj: u32) -> Option<u32> {
    if seqs.contains_key(obj) && consumed_at(consumed, obj) < seqs[obj].len() {
        Some(seqs[obj][consumed_at(consumed, obj)])
    } else {
        None
    }
}

/// The consumption indices after a take for `obj`: advanced past a taken
/// character, recorded unchanged when nothing is left, untouched when
/// nothing was pushed for `obj`.
pub open spec fn consumed_after_take(seqs: Map<u32, Seq<u32>>, consumed: Map<u32, usize>, obj: u32)
    -> Map<u32, usize> {
    if !seqs.contains_key(obj) {
        consumed
    } else if consumed_at(consumed, obj) < seqs[obj].len() {
        consumed.insert(obj, (consumed_at(consumed, obj) + 1) as usize)
    } else {
        consumed.insert(obj, consumed_at(consumed, obj) as usize)
    }
}

/// The characters pushed per text object after the pushes `ps`
/// ((object, character) pairs, in order).
pub open spec fn pushes(seqs: Map<u32, Seq<u32>>, ps: Seq<(u32, u32)>) -> Map<u32, Seq<u32>>
    decreases ps.len(),
{
    if ps.len() == 0 {
        seqs
    } else {
        after_push(pushes(seqs, ps.drop_last()), ps.last().0, ps.last().1)
    }
}

/// The characters of `ps` pushed for `obj`, in order.
pub open spec fn chars_for(ps: Seq<(u32, u32)>, obj: u32) -> Seq<u32>
    decreases ps.len(),
{
    if ps.len() == 0 {
        Seq::empty()
    } else if ps.last().0 == obj {
        chars_for(ps.drop_last(), obj).push(ps.last().1)
    } else {
        chars_for(ps.drop_last(), obj)
    }
}

/// The results of `n` successive takes for `obj`.
pub open spec fn takes(seqs: Map<u32, Seq<u32>>, consumed: Map<u32, usize>, obj: u32, n: nat) -> Seq<Option<u32>>
    decreases n,
{
    if n == 0 {
        Seq::empty()
    } else {
        seq![take_result(seqs, consumed, obj)] + takes(seqs, consumed_after_take(seqs, consumed, obj), obj,
            (n - 1) as nat)
    }
}

proof fn lemma_pushes_for(ps: Seq<(u32, u32)>, obj: u32)
    ensures
        pushes(Map::empty(), ps).contains_key(obj) <==> chars_for(ps, obj).len() > 0,
        chars_for(ps, obj).len() > 0 ==> pushes(Map::empty(), ps)[obj] == chars_for(ps, obj),
    decreases ps.len(),
{
    if ps.len() > 0 {
        lemma_pushes_for(ps.drop_last(), obj);
    }
}

proof fn lemma_takes_from(seqs: Map<u32, Seq<u32>>, consumed: Map<u32, usize>, obj: u32, cs: Seq<u32>, n: nat)
    requires
        cs.len() <= usize::MAX,
        cs.len() > 0 ==> seqs.contains_key(obj) && seqs[obj] == cs,
        cs.len() == 0 ==> !seqs.contains_key(obj),
        0 <= consumed_at(consumed, obj) <= cs.len(),
    ensures
        takes(seqs, consumed, obj, n) == Seq::new(n, |k: int| if consumed_at(consumed, obj) + k < cs.len() {
            Some(cs[consumed_at(consumed, obj) + k])
        } else {
            None::<u32>
        }),
    decreases n,
{
    if n > 0 {
        let next = consumed_after_take(seqs, consumed, obj);
        lemma_takes_from(seqs, next, obj, cs, (n - 1) as nat);
        let j = consumed_at(consumed, obj);
        if cs.len() > 0 {
            assert(consumed_at(next, obj) == if j < cs.len() { j + 1 } else { j });
        }
        assert(takes(seqs, consumed, obj, n) =~= Seq::new(n, |k: int| if j + k < cs.len() {
            Some(cs[j + k])
        } else {
            None::<u32>
        }));
    }
}

/// After a frame reset (no characters, no consumption) the pushes `ps`
/// are made; then the takes for a text object whose consumption starts at
/// 0 (as after the reset, or after `reset_text_char_consumption`) return
/// that object's characters in push order and then `None`, whatever was
/// pushed for other objects in between.
pub proof fn lemma_text_chars_taken_in_order(ps: Seq<(u32, u32)>, obj: u32, consumed: Map<u32, usize>, n: nat)
    requires
        chars_for(ps, obj).len() <= usize::MAX,
        consumed_at(consumed, obj) == 0,
    ensures
        takes(pushes(Map::empty(), ps), consumed, obj, n) == Seq::new(n, |k: int| if k < chars_for(ps, obj).len() {
            Some(chars_for(ps, obj)[k])
        } else {
            None::<u32>
        }),
{
    lemma_pushes_for(ps, obj);
    lemma_takes_from(pushes(Map::empty(), ps), consumed, obj, chars_for(ps, obj), n);
    assert(takes(pushes(Map::empty(), ps), consumed, obj, n) =~= Seq::new(n, |k: int| if k < chars_for(ps, obj).len() {
        Some(chars_for(ps, obj)[k])
    } else {
        None::<u32>
    }));
}

/// The colour of an RGB565 DMA background pixel with the framebuffer pixel
/// `dst` blended over it by `dst`'s alpha; the result is opaque.
pub open spec fn dma_overlay_pixel(lo: u8, hi: u8, dst: Rgba8) -> Rgba8 {
    let raw = lo + hi * 256;
    let a = dst.a as int;
    let inv = 255 - a;
    Rgba8 {
        r: ((widen5(raw / 2048) * inv + dst.r * a) / 255) as u8,
        g: ((widen6((raw / 32) % 64) * inv + dst.g * a) / 255) as u8,
        b: ((widen5(raw % 32) * inv + dst.b * a) / 255) as u8,
        a: 255,
    }
}

proof fn lemma_rgb565_widen(lo: u8, hi: u8)
    ensures
        ({
            let raw: u16 = (lo as u16) | ((hi as u16) << 8u16);
            let r5 = (raw >> 11u16) & 0x1f;
            let g6 = (raw >> 5u16) & 0x3f;
            let b5 = raw & 0x1f;
            let v = lo + 256 * hi;
            &&& ((r5 << 3u16) | (r5 >> 2u16)) == widen5(v / 2048)
            &&& ((g6 << 2u16) | (g6 >> 4u16)) == widen6((v / 32) % 64)
            &&& ((b5 << 3u16) | (b5 >> 2u16)) == widen5(v % 32)
        }),
{
    let raw: u16 = (lo as u16) | ((hi as u16) << 8u16);
    assert(raw == (lo as u16) + 256 * (hi as u16)) by (bit_vector)
        requires raw == (lo as u16) | ((hi as u16) << 8u16);
    assert((((raw >> 11u16) & 0x1f) << 3u16) | (((raw >> 11u16) & 0x1f) >> 2u16)
        == (raw / 2048) * 8 + (raw / 2048) / 4) by (bit_vector);
    assert((((raw >> 5u16) & 0x3f) << 2u16) | (((raw >> 5u16) & 0x3f) >> 4u16)
        == ((raw / 32) % 64) * 4 + ((raw / 32) % 64) / 16) by (bit_vector);
    assert(((raw & 0x1f) << 3u16) | ((raw & 0x1f) >> 2u16) == (raw % 32) * 8 + (raw % 32) / 4) by (bit_vector);
}

/// Laying the RGB565 background under the framebuffer: for each screen
/// pixel `i` the background word `raw` (little-endian at byte `2i`) is
/// expanded by its fields, red from bits 11..15, green from 5..10 and blue
/// from 0..4, each widened by repeating its top bits (`(r << 3) | (r >> 2)`,
/// `(g << 2) | (g >> 4)`); the framebuffer pixel is blended over it by its
/// own alpha, `(bg * (255 - a) + fg * a) / 255` per channel, and the result
/// is opaque. So a transparent pixel shows the background and an opaque
/// one stays as it is. Pixels past the screen, and everything when the
/// background is short, are unchanged.
pub proof fn lemma_overlay_background(s: LiveGlState, dma: Seq<u8>, t: LiveGlState, i: int)
    requires
        overlays(s, dma, t),
        0 <= i < s.framebuffer@.len(),
    ensures
        t.framebuffer@.len() == s.framebuffer@.len(),
        (dma.len() < FB_PIXELS * 2 || i >= FB_PIXELS) ==> t.framebuffer@[i] == s.framebuffer@[i],
        (dma.len() >= FB_PIXELS * 2 && i < FB_PIXELS) ==> ({
            let raw: u16 = (dma[2 * i] as u16) | ((dma[2 * i + 1] as u16) << 8u16);
            let r5 = (raw >> 11u16) & 0x1f;
            let g6 = (raw >> 5u16) & 0x3f;
            let b5 = raw & 0x1f;
            let bg_r = (r5 << 3u16) | (r5 >> 2u16);
            let bg_g = (g6 << 2u16) | (g6 >> 4u16);
            let bg_b = (b5 << 3u16) | (b5 >> 2u16);
            let d = s.framebuffer@[i];
            &&& t.framebuffer@[i] == Rgba8 {
                r: ((bg_r * (255 - d.a) + d.r * d.a) / 255) as u8,
                g: ((bg_g * (255 - d.a) + d.g * d.a) / 255) as u8,
                b: ((bg_b * (255 - d.a) + d.b * d.a) / 255) as u8,
                a: 255,
            }
            &&& d.a == 0 ==> t.framebuffer@[i] == Rgba8 { r: bg_r as u8, g: bg_g as u8, b: bg_b as u8, a: 255 }
            &&& d.a == 255 ==> t.framebuffer@[i] == Rgba8 { a: 255, ..d }
        }),
{
    if dma.len() >= FB_PIXELS * 2 && i < FB_PIXELS {
        lemma_rgb565_widen(dma[2 * i], dma[2 * i + 1]);
        let d = s.framebuffer@[i];
        let raw: u16 = (dma[2 * i] as u16) | ((dma[2 * i + 1] as u16) << 8u16);
        let bg_r = ((raw >> 11u16) & 0x1f) << 3u16 | (((raw >> 11u16) & 0x1f) >> 2u16);
        assert(bg_r <= 255) by (bit_vector)
            requires bg_r == ((raw >> 11u16) & 0x1f) << 3u16 | (((raw >> 11u16) & 0x1f) >> 2u16);
        let bg_g = (((raw >> 5u16) & 0x3f) << 2u16) | (((raw >> 5u16) & 0x3f) >> 4u16);
        assert(bg_g <= 255) by (bit_vector)
            requires bg_g == (((raw >> 5u16) & 0x3f) << 2u16) | (((raw >> 5u16) & 0x3f) >> 4u16);
        let bg_b = ((raw & 0x1f) << 3u16) | ((raw & 0x1f) >> 2u16);
        assert(bg_b <= 255) by (bit_vector)
            requires bg_b == ((raw & 0x1f) << 3u16) | ((raw & 0x1f) >> 2u16);
        assert(d.a == 255 ==> (bg_r * (255 - d.a) + d.r * d.a) / 255 == d.r) by (nonlinear_arith)
            requires d.r <= 255;
        assert(d.a == 255 ==> (bg_g * (255 - d.a) + d.g * d.a) / 255 == d.g) by (nonlinear_arith)
            requires d.g <= 255;
        assert(d.a == 255 ==> (bg_b * (255 - d.a) + d.b * d.a) / 255 == d.b) by (nonlinear_arith)
            requires d.b <= 255;
        assert(d.a == 0 ==> (bg_r * (255 - d.a) + d.r * d.a) / 255 == bg_r) by (nonlinear_arith);
        assert(d.a == 0 ==> (bg_g * (255 - d.a) + d.g * d.a) / 255 == bg_g) by (nonlinear_arith);
        assert(d.a == 0 ==> (bg_b * (255 - d.a) + d.b * d.a) / 255 == bg_b) by (nonlinear_arith);
    }
}

/// Blend one channel of the DMA overlay.
fn dma_channel(c8: u32, d: u8, a: u32) -> (out: u8)
    requires
        c8 <= 255,
        a <= 255,
    ensures
        out == ((c8 * (255 - a) + d * a) / 255) as u8,
{
    assert(c8 * (255 - a) + d * a <= 255 * 255) by (nonlinear_arith)
        requires c8 <= 255, a <= 255, d <= 255;
    ((c8 * (255 - a) + (d as u32) * a) / 255) as u8
}

/// `t` (returning `r`) is the state `s` after closing its frame (see
/// `complete_frame`).
pub open spec fn completes(s: LiveGlState, r: Option<CompletedFrame>, t: LiveGlState) -> bool {
    &&& !s.frame_active ==> {
        &&& r is None
        &&& t.anomaly_log() == offer(s.anomaly_log(), s.diagnostics_budget as int,
            present_without_frame_msg(s.candidate_present_ordinal))
        &&& t == (LiveGlState { frame_anomalies: t.frame_anomalies, ..s })
    }
    &&& s.frame_active && !s.presents_new_frame() ==> {
        &&& r == Some(CompletedFrame {
            index: (s.completed_frame_index + 1) as u64,
            draw_count: 0,
            skipped_draws: s.skipped_draws_this_frame,
            internal_hash: framebuffer_hash_spec(s.completed_buffer@),
            presented_hash: framebuffer_hash_spec(s.presented_buffer@),
            handle_signature: r->0.handle_signature,
        })
        &&& r->0.handle_signature@.len() == 0
        &&& t.anomaly_log() == offer(s.anomaly_log(), s.diagnostics_budget as int,
            clear_without_draws_msg(s.candidate_present_ordinal))
        &&& t == (LiveGlState {
            frame_anomalies: t.frame_anomalies,
            frame_active: false,
            completed_frame_index: (s.completed_frame_index + 1) as u64,
            ..s
        })
    }
    &&& s.presents_new_frame() ==> {
        let view = presented_view(s.framebuffer@, s.present_vflip, s.ndc_frame);
        let ph = framebuffer_hash_spec(view);
        let index = (s.completed_frame_index + 1) as u64;
        let n = s.draws@.len();
        &&& r == Some(CompletedFrame {
            index,
            draw_count: n as usize,
            skipped_draws: s.skipped_draws_this_frame,
            internal_hash: framebuffer_hash_spec(s.framebuffer@),
            presented_hash: ph,
            handle_signature: r->0.handle_signature,
        })
        &&& r->0.handle_signature@ == s.handle_signature()
        &&& t.anomaly_log() == if n != 0 && n != 4 {
            offer(s.anomaly_log(), s.diagnostics_budget as int,
                unexpected_draws_msg(s.candidate_present_ordinal, n))
        } else {
            s.anomaly_log()
        }
        &&& t.completed_buffer@ == s.framebuffer@
        &&& t.presented_buffer@ == view
        &&& t.presented matches Some(p) && p@ == view
        &&& t.first_presented_hash == if s.first_presented_hash is None {
            Some(ph)
        } else {
            s.first_presented_hash
        }
        &&& t.repeated_presented_count == if s.prev_presented_hash == Some(ph) {
            (s.repeated_presented_count + 1) as u64
        } else {
            s.repeated_presented_count
        }
        &&& t.first_changed_frame == if s.prev_presented_hash != Some(ph)
            && index > 1 && s.first_changed_frame is None {
            Some(index)
        } else {
            s.first_changed_frame
        }
        &&& t.prev_presented_hash == Some(ph)
        &&& t.unique_presented_hashes@ == s.unique_presented_hashes@.insert(ph)
        &&& t == (LiveGlState {
            frame_anomalies: t.frame_anomalies,
            frame_active: false,
            completed_frame_index: index,
            completed_buffer: t.completed_buffer,
            presented_buffer: t.presented_buffer,
            presented: t.presented,
            first_presented_hash: t.first_presented_hash,
            repeated_presented_count: t.repeated_presented_count,
            first_changed_frame: t.first_changed_frame,
            prev_presented_hash: t.prev_presented_hash,
            unique_presented_hashes: t.unique_presented_hashes,
            ..s
        })
    }
}

/// `t` (returning `r`) is the state `s` after opening a frame (see
/// `begin_frame`).
pub open spec fn begins(s: LiveGlState, r: BeginOutcome, t: LiveGlState) -> bool {
    &&& r == (if s.frame_active { BeginOutcome::DoubleBegin } else { BeginOutcome::Began })
    &&& t.anomaly_log() == ({
        let budget = s.diagnostics_budget as int;
        let l1 = if s.arrays@.len() > 0 {
            offer(s.anomaly_log(), budget, stale_arrays_msg(s.candidate_begin_ordinal, s.arrays@.len()))
        } else {
            s.anomaly_log()
        };
        if s.frame_active {
            offer(l1, budget, double_begin_msg(s.candidate_begin_ordinal, s.draws@.len()))
        } else {
            l1
        }
    })
    &&& t == (LiveGlState {
        frame_anomalies: t.frame_anomalies,
        skipped_draws_this_frame: 0,
        has_dma_overlay: false,
        frame_active: true,
        ..s
    })
}

/// `t` is the state `s` after laying the RGB565 background `dma` under its
/// framebuffer (see `overlay_dma_rgb565`).
pub open spec fn overlays(s: LiveGlState, dma: Seq<u8>, t: LiveGlState) -> bool {
    &&& t.framebuffer@ == if dma.len() < FB_PIXELS * 2 {
        s.framebuffer@
    } else {
        Seq::new(s.framebuffer@.len(), |i: int| if i < FB_PIXELS {
            dma_overlay_pixel(dma[2 * i], dma[2 * i + 1], s.framebuffer@[i])
        } else {
            s.framebuffer@[i]
        })
    }
    &&& t == (LiveGlState { framebuffer: t.framebuffer, has_dma_overlay: true, ..s })
}

/// Whether a DMA framebuffer snapshot holds anything but the fill byte
/// 0x2d.
pub open spec fn dma_content(dma: Seq<u8>) -> bool {
    exists|i: int| 0 <= i < dma.len() && dma[i] != 0x2d
}

/// `t` is `s` with the background `dma` laid under the framebuffer when the
/// snapshot has content, else `s` itself.
pub open spec fn overlay_if_content(s: LiveGlState, dma: Seq<u8>, t: LiveGlState) -> bool {
    if dma_content(dma) { overlays(s, dma, t) } else { t == s }
}

/// `t` (returning `r`) is `s` after a candidate present with the DMA
/// snapshot `dma`: the background goes under the framebuffer when it has
/// content and the frame is closed; a present without an open frame is
/// followed by opening one, laying the background again and closing it.
pub open spec fn presents_candidate(s: LiveGlState, dma: Seq<u8>, r: Option<CompletedFrame>, t: LiveGlState) -> bool {
    exists|s1: LiveGlState| #[trigger] overlay_if_content(s, dma, s1) && if s1.frame_active {
        completes(s1, r, t)
    } else {
        exists|s2: LiveGlState, s3: LiveGlState, s4: LiveGlState|
            #![trigger completes(s1, None::<CompletedFrame>, s2), begins(s2, BeginOutcome::Began, s3), overlay_if_content(s3, dma, s4)]
            completes(s1, None::<CompletedFrame>, s2) && begins(s2, BeginOutcome::Began, s3)
                && overlay_if_content(s3, dma, s4) && completes(s4, r, t)
    }
}

impl LiveGlState {
    /// The anomaly log as text.
    pub open spec fn anomaly_log(&self) -> Seq<Seq<char>> {
        self.frame_anomalies@.map_values(|m: String| m@)
    }


    /// A fresh state: no uploads or draws, a transparent framebuffer, black
    /// clear colour and white modulation.
    pub fn new(present_vflip: bool, gate_b: bool, continuous_capture: bool, game_id: String) -> (s: Self)
        ensures
            s.uploads@.len() == 0,
            s.resource_uploads_by_handle@ == Map::<u32, usize>::empty(),
            s.arrays@ == Map::<u32, LiveArrayDef>::empty(),
            s.enabled_arrays@ == Set::<u32>::empty(),
            s.pending_tex_name is None,
            s.bound_tex_name is None,
            s.current_handle == 0 && s.current_state_ptr == 0 && s.current_material_epoch == 0,
            s.translation == (0u32, 0u32) && s.frame_base_translation == (0u32, 0u32),
            s.pointer_text_carry_handle is None && s.pointer_text_carry == (0u32, 0u32),
            !s.board_base_translation_valid && !s.frame_material_bound && !s.use_incremental_translation,
            s.previous_frame_draw_count == 0,
            s.clear_color == (Rgba8 { r: 0, g: 0, b: 0, a: 255 }),
            s.modulate == (Rgba8 { r: 255, g: 255, b: 255, a: 255 }),
            s.framebuffer@ == Seq::new(FB_PIXELS as nat, |_i: int| clear_pixel()),
            s.completed_buffer@ == Seq::new(FB_PIXELS as nat, |_i: int| clear_pixel()),
            s.presented_buffer@ == Seq::new(FB_PIXELS as nat, |_i: int| clear_pixel()),
            s.draws@.len() == 0 && s.draw_count_in_frame == 0 && s.candidate_frames == 0,
            !s.captured_first_frame,
            s.present_vflip == present_vflip && s.gate_b == gate_b && s.continuous_capture == continuous_capture,
            !s.ndc_frame,
            s.last_frame_counter == 0,
            s.prev_draw_handles is None,
            s.lifecycle_log@.len() == 0 && s.ordinal_trace@.len() == 0 && s.lifecycle_reports@.len() == 0,
            s.lifecycle_report_budget == 120,
            s.presented is None,
            !s.frame_active && !s.has_dma_overlay,
            s.game_id@ == game_id@,
            s.viewport_w == 320 && s.viewport_h == 240,
            s.completed_frame_index == 0,
            s.candidate_begin_ordinal == 158 && s.candidate_present_ordinal == 157,
            s.skipped_draws_this_frame == 0,
            s.frame_anomalies@.len() == 0,
            s.diagnostics_budget == 120,
            s.dump_remaining == 0 && s.dump_counter == 0,
            s.first_presented_hash is None && s.prev_presented_hash is None && s.first_changed_frame is None,
            s.unique_presented_hashes@ == Set::<u64>::empty(),
            s.repeated_presented_count == 0,
            s.text_char_seqs@ == Map::<u32, Vec<u32>>::empty(),
            s.text_char_consumed@ == Map::<u32, usize>::empty(),
    {
        let blank = Rgba8::rgba(0, 0, 0, 0);
        LiveGlState {
            uploads: Vec::new(),
            resource_uploads_by_handle: HashMap::new(),
            pending_tex_name: None,
            bound_tex_name: None,
            arrays: HashMap::new(),
            enabled_arrays: HashSet::new(),
            current_handle: 0,
            current_state_ptr: 0,
            current_material_epoch: 0,
            translation: (0, 0),
            frame_base_translation: (0, 0),
            board_base_translation_valid: false,
            frame_material_bound: false,
            previous_frame_draw_count: 0,
            use_incremental_translation: false,
            clear_color: Rgba8::rgba(0, 0, 0, 255),
            modulate: Rgba8::rgba(255, 255, 255, 255),
            pointer_text_carry_handle: None,
            pointer_text_carry: (0, 0),
            framebuffer: filled(blank, FB_PIXELS),
            draws: Vec::new(),
            draw_count_in_frame: 0,
            candidate_frames: 0,
            captured_first_frame: false,
            present_vflip,
            ndc_frame: false,
            gate_b,
            continuous_capture,
            last_frame_counter: 0,
            prev_draw_handles: None,
            lifecycle_log: Vec::new(),
            ordinal_trace: Vec::new(),
            lifecycle_reports: Vec::new(),
            lifecycle_report_budget: 120,
            completed_buffer: filled(blank, FB_PIXELS),
            presented_buffer: filled(blank, FB_PIXELS),
            frame_active: false,
            has_dma_overlay: false,
            game_id,
            viewport_w: 320,
            viewport_h: 240,
            completed_frame_index: 0,
            candidate_begin_ordinal: 158,
            candidate_present_ordinal: 157,
            skipped_draws_this_frame: 0,
            frame_anomalies: Vec::new(),
            diagnostics_budget: 120,
            dump_remaining: 0,
            dump_counter: 0,
            first_presented_hash: None,
            prev_presented_hash: None,
            first_changed_frame: None,
            unique_presented_hashes: HashSet::new(),
            repeated_presented_count: 0,
            presented: None,
            text_char_seqs: HashMap::new(),
            text_char_consumed: HashMap::new(),
        }
    }

    /// Reset per-frame state. Uploads persist. The tile-composition title
    /// (`66666`) keeps its framebuffer and learned board origin, and turns
    /// on incremental translation after a frame of 1 to 16 draws.
    pub fn reset_for_frame(&mut self)
        ensures
            final(self).arrays@ == Map::<u32, LiveArrayDef>::empty(),
            final(self).enabled_arrays@ == Set::<u32>::empty(),
            final(self).translation == (0u32, 0u32),
            !final(self).frame_material_bound,
            is_incremental_title(old(self).game_id@) ==> {
                &&& final(self).frame_base_translation == old(self).frame_base_translation
                &&& final(self).board_base_translation_valid == old(self).board_base_translation_valid
                &&& final(self).framebuffer@ == old(self).framebuffer@
            },
            !is_incremental_title(old(self).game_id@) ==> {
                &&& final(self).frame_base_translation == (0u32, 0u32)
                &&& !final(self).board_base_translation_valid
                &&& final(self).framebuffer@ == Seq::new(FB_PIXELS as nat, |_i: int| clear_pixel())
            },
            final(self).use_incremental_translation == (is_incremental_title(old(self).game_id@)
                && 1 <= old(self).previous_frame_draw_count <= 16),
            final(self).pointer_text_carry_handle is None,
            final(self).pointer_text_carry == (0u32, 0u32),
            final(self).draws@.len() == 0,
            final(self).draw_count_in_frame == 0,
            final(self).ordinal_trace@.len() == 0,
            !final(self).ndc_frame,
            final(self).text_char_seqs@ == Map::<u32, Vec<u32>>::empty(),
            final(self).char_seqs() == Map::<u32, Seq<u32>>::empty(),
            final(self).text_char_consumed@ == Map::<u32, usize>::empty(),
            *final(self) == (LiveGlState {
                arrays: final(self).arrays,
                enabled_arrays: final(self).enabled_arrays,
                translation: final(self).translation,
                frame_material_bound: final(self).frame_material_bound,
                frame_base_translation: final(self).frame_base_translation,
                board_base_translation_valid: final(self).board_base_translation_valid,
                use_incremental_translation: final(self).use_incremental_translation,
                pointer_text_carry_handle: final(self).pointer_text_carry_handle,
                pointer_text_carry: final(self).pointer_text_carry,
                framebuffer: final(self).framebuffer,
                draws: final(self).draws,
                draw_count_in_frame: final(self).draw_count_in_frame,
                ordinal_trace: final(self).ordinal_trace,
                ndc_frame: final(self).ndc_frame,
                text_char_seqs: final(self).text_char_seqs,
                text_char_consumed: final(self).text_char_consumed,
                ..*old(self)
            }),
    {
        proof {
            reveal_strlit("66666");
        }
        self.arrays.clear();
        self.enabled_arrays.clear();
        self.translation = (0, 0);
        self.frame_material_bound = false;
        let incremental = str_eq(self.game_id.as_str(), "66666");
        if !incremental {
            self.frame_base_translation = (0, 0);
            self.board_base_translation_valid = false;
        }
        self.use_incremental_translation = incremental
            && 1 <= self.previous_frame_draw_count && self.previous_frame_draw_count <= 16;
        self.pointer_text_carry_handle = None;
        self.pointer_text_carry = (0, 0);
        if !incremental {
            self.framebuffer = filled(Rgba8::rgba(0, 0, 0, 0), FB_PIXELS);
        }
        self.draws.clear();
        self.draw_count_in_frame = 0;
        self.ordinal_trace.clear();
        self.ndc_frame = false;
        self.text_char_seqs.clear();
        self.text_char_consumed.clear();
    }

    pub fn set_clear_color(&mut self, color: Rgba8)
        ensures
            *final(self) == (LiveGlState { clear_color: color, ..*old(self) }),
    {
        self.clear_color = color;
    }

    pub fn set_modulate(&mut self, color: Rgba8)
        ensures
            *final(self) == (LiveGlState { modulate: color, ..*old(self) }),
    {
        self.modulate = color;
    }

    /// A clear whose mask has the colour-buffer bit fills the framebuffer
    /// with the clear colour; other masks change nothing.
    pub fn clear(&mut self, mask: u32)
        ensures
            mask & GL_COLOR_BUFFER_BIT != 0 ==> final(self).framebuffer@
                == Seq::new(old(self).framebuffer@.len(), |_i: int| old(self).clear_color),
            mask & GL_COLOR_BUFFER_BIT == 0 ==> final(self).framebuffer@ == old(self).framebuffer@,
            *final(self) == (LiveGlState { framebuffer: final(self).framebuffer, ..*old(self) }),
    {
        if mask & GL_COLOR_BUFFER_BIT != 0 {
            let n = self.framebuffer.len();
            self.framebuffer = filled(self.clear_color, n);
        }
    }

    /// Offer an anomaly message to the bounded log.
    fn push_anomaly(&mut self, msg: String)
        requires
            old(self).diagnostics_budget * 4 <= usize::MAX,
        ensures
            final(self).anomaly_log() == offer(old(self).anomaly_log(), old(self).diagnostics_budget as int, msg@),
            *final(self) == (LiveGlState { frame_anomalies: final(self).frame_anomalies, ..*old(self) }),
    {
        if self.frame_anomalies.len() < self.diagnostics_budget * 4 {
            self.frame_anomalies.push(msg);
            assert(self.anomaly_log() =~= old(self).anomaly_log().push(msg@));
        }
    }

    /// Build an upload from texture-upload arguments. The enumerants pick the
    /// format; the first `width * height * bytes-per-texel` payload bytes
    /// are decoded (alpha-only textures tinted white) unless the payload is
    /// shorter, in which case the upload has no texture. Row order is kept.
    pub fn build_upload(index: usize, target: u32, width: u32, height: u32, source_format: u32, pixel_type: u32,
        source_ptr: u32, payload: &[u8], tex_name: Option<u32>) -> (u: LiveGlUpload)
        requires
            format_from_gl_spec(source_format, pixel_type) matches Some(f)
                ==> width * height * bytes_per_pixel(f) <= usize::MAX,
        ensures
            upload_from_args(u, index, target, width, height, source_format, pixel_type, source_ptr, payload@, tex_name),
    {
        let format = format_from_gl(source_format, pixel_type);
        let texture = match format {
            None => None,
            Some(fmt) => {
                let expected = pix_payload_size(fmt, width as usize, height as usize);
                if payload.len() < expected {
                    None
                } else {
                    let raw = copy_range(payload, 0, expected);
                    let t = Texture::from_bytes(raw.as_slice(), width as usize, height as usize, fmt,
                        Rgba8::rgba(255, 255, 255, 255));
                    proof {
                        assert(raw@ == payload@.take(raw@.len() as int));
                        assert forall|i: int| 0 <= i < width * height implies #[trigger] t.pixels@[i]
                            == decode_texel(payload@, i, fmt, white()) by {
                            assert((i + 1) * bytes_per_pixel(fmt) <= (width * height) * bytes_per_pixel(fmt)) by (nonlinear_arith)
                                requires 0 <= i < width * height, bytes_per_pixel(fmt) >= 1;
                            crate::sys::eapp::rasterizer::lemma_decode_texel_prefix(raw@, payload@, i, fmt, white());
                        }
                    }
                    Some(t)
                }
            },
        };
        LiveGlUpload {
            index,
            target,
            width: width as usize,
            height: height as usize,
            source_format,
            pixel_type,
            source_ptr,
            source_file: None,
            source_file_offset: None,
            format,
            texture,
            tex_name,
        }
    }

    /// The `index` of the first upload with a decoded texture of exactly
    /// `w` x `h`.
    pub fn select_upload_by_dims(&self, w: usize, h: usize) -> (r: Option<usize>)
        ensures
            r == (match first_with_dims(self.uploads@, w, h, 0) {
                Some(p) => Some(self.uploads@[p].index),
                None => None::<usize>,
            }),
    {
        let mut k: usize = 0;
        while k < self.uploads.len()
            invariant
                k <= self.uploads@.len(),
                first_with_dims(self.uploads@, w, h, 0) == first_with_dims(self.uploads@, w, h, k as int),
            decreases self.uploads@.len() - k,
        {
            let u = &self.uploads[k];
            if u.texture.is_some() && u.width == w && u.height == h {
                return Some(u.index);
            }
            k += 1;
        }
        None
    }

    /// The `index` of the most recent upload bound to texture name
    /// `tex_name` that has a decoded texture.
    pub fn select_upload_by_tex_name(&self, tex_name: u32) -> (r: Option<usize>)
        ensures
            r == (match last_with_name(self.uploads@, tex_name, true, self.uploads@.len() as int) {
                Some(p) => Some(self.uploads@[p].index),
                None => None::<usize>,
            }),
    {
        let mut k: usize = self.uploads.len();
        while k > 0
            invariant
                k <= self.uploads@.len(),
                last_with_name(self.uploads@, tex_name, true, self.uploads@.len() as int)
                    == last_with_name(self.uploads@, tex_name, true, k as int),
            decreases k,
        {
            let u = &self.uploads[k - 1];
            if u.texture.is_some() && u.tex_name == Some(tex_name) {
                return Some(u.index);
            }
            k -= 1;
        }
        None
    }

    /// Copy a `width` x `height` block of the framebuffer into the texture
    /// named `tex_name`, reading rows bottom-up from (`x`, `y`) as GL does
    /// (see `copied_pixel`). The most recent upload with that name is
    /// replaced by the RGBA8888 copy; without one, a new upload is added.
    /// A zero name, an empty block, or a side over 2048 changes nothing.
    pub fn copy_framebuffer_to_texture(&mut self, tex_name: u32, x: i64, y: i64, width: usize, height: usize)
        requires
            tex_name != 0 && 0 < width <= 2048 && 0 < height <= 2048 ==> {
                &&& old(self).framebuffer@.len() >= FB_PIXELS
                &&& y >= 239 - i64::MAX
                &&& y + height - 1 <= i64::MAX
                &&& x + width - 1 <= i64::MAX
            },
        ensures
            positions_indexed(old(self).uploads@) ==> positions_indexed(final(self).uploads@),
            tex_name == 0 || width == 0 || height == 0 || width > 2048 || height > 2048 ==> *final(self) == *old(self),
            !(tex_name == 0 || width == 0 || height == 0 || width > 2048 || height > 2048) ==> {
                &&& *final(self) == (LiveGlState { uploads: final(self).uploads, ..*old(self) })
                &&& copied_into(old(self).uploads@, final(self).uploads@, tex_name, old(self).framebuffer@,
                    x as int, y as int, width, height)
            },
    {
        if tex_name == 0 || width == 0 || height == 0 || width > 2048 || height > 2048 {
            return;
        }
        let pixels = copy_block(self.framebuffer.as_slice(), x, y, width, height);
        let texture = Texture { width, height, pixels };
        let found = last_upload_named(&self.uploads, tex_name);
        if let Some(p) = found {
            let index = self.uploads[p].index;
            let target = self.uploads[p].target;
            self.uploads.set(p, LiveGlUpload {
                index,
                target,
                width,
                height,
                source_format: 0x1908,
                pixel_type: 0x1401,
                source_ptr: 0,
                source_file: None,
                source_file_offset: None,
                format: Some(TextureFormat::Rgba8888),
                texture: Some(texture),
                tex_name: Some(tex_name),
            });
            return;
        }
        let index = self.uploads.len();
        self.uploads.push(LiveGlUpload {
            index,
            target: 0,
            width,
            height,
            source_format: 0x1908,
            pixel_type: 0x1401,
            source_ptr: 0,
            source_file: None,
            source_file_offset: None,
            format: Some(TextureFormat::Rgba8888),
            texture: Some(texture),
            tex_name: Some(tex_name),
        });
    }

    /// Composite an RGB565 DMA background under the framebuffer: each
    /// framebuffer pixel is blended over the background pixel by its alpha
    /// and the result is opaque. A background shorter than a full screen
    /// leaves the framebuffer as it is; the overlay flag is set either way.
    pub fn overlay_dma_rgb565(&mut self, rgb565: &[u8])
        requires
            rgb565@.len() >= FB_PIXELS * 2 ==> old(self).framebuffer@.len() >= FB_PIXELS,
        ensures
            overlays(*old(self), rgb565@, *final(self)),
    {
        self.has_dma_overlay = true;
        if rgb565.len() < FB_PIXELS * 2 {
            return;
        }
        let ghost before = self.framebuffer@;
        let mut fb = copy_pixels(self.framebuffer.as_slice());
        let mut i: usize = 0;
        while i < FB_PIXELS
            invariant
                i <= FB_PIXELS,
                rgb565@.len() >= FB_PIXELS * 2,
                fb@.len() == before.len(),
                before.len() >= FB_PIXELS,
                forall|j: int| 0 <= j < i ==> #[trigger] fb@[j]
                    == dma_overlay_pixel(rgb565@[2 * j], rgb565@[2 * j + 1], before[j]),
                forall|j: int| i <= j < before.len() ==> #[trigger] fb@[j] == before[j],
            decreases FB_PIXELS - i,
        {
            let raw: u32 = rgb565[2 * i] as u32 + rgb565[2 * i + 1] as u32 * 256;
            let r: u32 = raw / 2048;
            let g: u32 = (raw / 32) % 64;
            let b: u32 = raw % 32;
            let dst = fb[i];
            let alpha = dst.a as u32;
            let out = Rgba8::rgba(
                dma_channel(r * 8 + r / 4, dst.r, alpha),
                dma_channel(g * 4 + g / 16, dst.g, alpha),
                dma_channel(b * 8 + b / 4, dst.b, alpha),
                255,
            );
            fb.set(i, out);
            i += 1;
        }
        self.framebuffer = fb;
        assert(self.framebuffer@ =~= Seq::new(before.len(), |i: int| if i < FB_PIXELS {
            dma_overlay_pixel(rgb565@[2 * i], rgb565@[2 * i + 1], before[i])
        } else {
            before[i]
        }));
    }

    /// Add the bundle's images as uploads before the game runs: each file
    /// that decodes as a manifest image becomes an upload named 1, 2, ... in
    /// order, and a report line is returned for it. Later guest uploads are
    /// appended after these.
    pub fn preload_bundle_textures(&mut self, files: Vec<BundleFile>) -> (lines: Vec<String>)
        ensures
            preloaded(old(self).uploads@, final(self).uploads@, files@, lines@.map_values(|l: String| l@)),
            positions_indexed(old(self).uploads@) ==> positions_indexed(final(self).uploads@),
            *final(self) == (LiveGlState { uploads: final(self).uploads, ..*old(self) }),
    {
        proof {
            reveal_strlit("preloaded tex#");
            reveal_strlit(" <- ");
            reveal_strlit(" (");
            reveal_strlit("x");
            reveal_strlit(", ");
            reveal_strlit(")");
        }
        let ghost fs = files@;
        let ghost before = self.uploads@;
        let mut next_name: u32 = 1;
        let mut loaded: Vec<String> = Vec::new();
        let mut k: usize = 0;
        let mut files = files;
        assert(fs.take(0) =~= Seq::<BundleFile>::empty());
        assert(loaded@.map_values(|l: String| l@) =~= Seq::<Seq<char>>::empty());
        while k < files.len()
            invariant
                files@ == fs,
                k <= fs.len(),
                next_name == preload_name(count_decoded(fs.take(k as int))),
                preloaded(before, self.uploads@, fs.take(k as int), loaded@.map_values(|l: String| l@)),
                *self == (LiveGlState { uploads: self.uploads, ..*old(self) }),
            decreases fs.len() - k,
        {
            let ghost prefix = fs.take(k as int);
            proof {
                assert(fs.take(k + 1).drop_last() =~= prefix);
                assert(fs.take(k + 1).last() == fs[k as int]);
            }
            let decoded = decode_manifest_texture(files[k].extension.as_str(), files[k].data.as_slice());
            match decoded {
                None => {},
                Some(d) => {
                    let name = next_name;
                    next_name = next_name.wrapping_add(1);
                    let index = self.uploads.len();
                    let format = d.format;
                    let width = d.width;
                    let height = d.height;
                    let (source_format, pixel_type) = manifest_gl_format(format);
                    let mut line = String::from_str("preloaded tex#");
                    push_dec(&mut line, name as u64);
                    line.append(" <- ");
                    line.append(files[k].file_name.as_str());
                    line.append(" (");
                    push_dec(&mut line, width as u64);
                    line.append("x");
                    push_dec(&mut line, height as u64);
                    line.append(", ");
                    push_format_name(&mut line, format);
                    line.append(")");
                    let display = files[k].display.clone();
                    let texture = Texture { width, height, pixels: d.pixels };
                    let ghost prev_uploads = self.uploads@;
                    let ghost prev_lines = loaded@.map_values(|l: String| l@);
                    self.uploads.push(LiveGlUpload {
                        index,
                        target: 0,
                        width,
                        height,
                        source_format,
                        pixel_type,
                        source_ptr: 0,
                        source_file: Some(display),
                        source_file_offset: None,
                        format: Some(format),
                        texture: Some(texture),
                        tex_name: Some(name),
                    });
                    loaded.push(line);
                    proof {
                        assert(self.uploads@.drop_last() =~= prev_uploads);
                        assert(loaded@.map_values(|l: String| l@).drop_last() =~= prev_lines);
                    }
                },
            }
            k += 1;
        }
        assert(fs.take(fs.len() as int) =~= fs);
        proof {
            if positions_indexed(before) {
                lemma_preload_keeps_positions(before, self.uploads@, fs, loaded@.map_values(|l: String| l@));
            }
        }
        loaded
    }

    /// The characters pushed per text object.
    pub open spec fn char_seqs(&self) -> Map<u32, Seq<u32>> {
        self.text_char_seqs@.map_values(|v: Vec<u32>| v@)
    }

    /// Append `char` to the characters pushed for `text_obj`.
    pub fn record_text_char_push(&mut self, text_obj: u32, char: u32)
        ensures
            final(self).char_seqs() == after_push(old(self).char_seqs(), text_obj, char),
            final(self).char_seqs() == old(self).char_seqs().insert(text_obj,
                if old(self).char_seqs().contains_key(text_obj) {
                    old(self).char_seqs()[text_obj].push(char)
                } else {
                    seq![char]
                }),
            *final(self) == (LiveGlState { text_char_seqs: final(self).text_char_seqs, ..*old(self) }),
    {
        let mut seq = match self.text_char_seqs.remove(&text_obj) {
            Some(v) => v,
            None => Vec::new(),
        };
        seq.push(char);
        self.text_char_seqs.insert(text_obj, seq);
        proof {
            let want = old(self).char_seqs().insert(text_obj,
                if old(self).char_seqs().contains_key(text_obj) {
                    old(self).char_seqs()[text_obj].push(char)
                } else {
                    seq![char]
                });
            assert(self.char_seqs() =~= want);
        }
    }

    /// The next unconsumed character pushed for `text_obj`, advancing its
    /// consumption index (which starts at 0). `None` when nothing was pushed
    /// for it, or all of it was consumed.
    pub fn take_text_char_for_draw(&mut self, text_obj: u32) -> (r: Option<u32>)
        ensures
            r == take_result(old(self).char_seqs(), old(self).text_char_consumed@, text_obj),
            final(self).text_char_consumed@ == consumed_after_take(old(self).char_seqs(),
                old(self).text_char_consumed@, text_obj),
            final(self).char_seqs() == old(self).char_seqs(),
            !old(self).char_seqs().contains_key(text_obj) ==> r is None && *final(self) == *old(self),
            old(self).char_seqs().contains_key(text_obj) ==> {
                let seq = old(self).char_seqs()[text_obj];
                let idx = if old(self).text_char_consumed@.contains_key(text_obj) {
                    old(self).text_char_consumed@[text_obj] as int
                } else {
                    0
                };
                &&& idx >= seq.len() ==> r is None
                    && final(self).text_char_consumed@ == old(self).text_char_consumed@.insert(text_obj, idx as usize)
                &&& idx < seq.len() ==> r == Some(seq[idx])
                    && final(self).text_char_consumed@ == old(self).text_char_consumed@.insert(text_obj, (idx + 1) as usize)
                &&& *final(self) == (LiveGlState { text_char_consumed: final(self).text_char_consumed, ..*old(self) })
            },
    {
        let (len, ch) = match self.text_char_seqs.get(&text_obj) {
            None => return None,
            Some(seq) => {
                let idx = match self.text_char_consumed.get(&text_obj) {
                    Some(i) => *i,
                    None => 0,
                };
                if idx < seq.len() {
                    (idx, Some(seq[idx]))
                } else {
                    (idx, None)
                }
            },
        };
        proof {
            assert(self.char_seqs().contains_key(text_obj));
        }
        match ch {
            None => {
                self.text_char_consumed.insert(text_obj, len);
                None
            },
            Some(c) => {
                self.text_char_consumed.insert(text_obj, len + 1);
                Some(c)
            },
        }
    }

    /// Restart the consumption of `text_obj`'s characters at index 0.
    pub fn reset_text_char_consumption(&mut self, text_obj: u32)
        ensures
            final(self).text_char_consumed@ == old(self).text_char_consumed@.insert(text_obj, 0),
            *final(self) == (LiveGlState { text_char_consumed: final(self).text_char_consumed, ..*old(self) }),
    {
        self.text_char_consumed.insert(text_obj, 0);
    }

    /// Summarise this frame's call trace on one line (see `trace_summary`)
    /// and empty it; `None` when the trace is empty.
    pub fn take_frame_trace_summary(&mut self, frame_index: u64, draw_count: usize) -> (r: Option<String>)
        ensures
            old(self).ordinal_trace@.len() == 0 ==> r is None && *final(self) == *old(self),
            old(self).ordinal_trace@.len() > 0 ==> {
                &&& r matches Some(line) && line@ == trace_summary(frame_index, draw_count, old(self).ordinal_trace@)
                &&& final(self).ordinal_trace@.len() == 0
                &&& *final(self) == (LiveGlState { ordinal_trace: final(self).ordinal_trace, ..*old(self) })
            },
    {
        if self.ordinal_trace.len() == 0 {
            return None;
        }
        proof {
            reveal_strlit("37#");
            reveal_strlit("(h");
            reveal_strlit(")");
            reveal_strlit(",");
            reveal_strlit("lifecycle frame=");
            reveal_strlit(" draws=");
            reveal_strlit(" first_surface=");
            reveal_strlit(" last_surface=");
            reveal_strlit(" trace=[");
            reveal_strlit("]");
        }
        let ghost t = self.ordinal_trace@;
        let mut draw_idx: usize = 0;
        let mut first: Option<u32> = None;
        let mut last: Option<u32> = None;
        let mut rendered = String::new();
        let mut k: usize = 0;
        while k < self.ordinal_trace.len()
            invariant
                t == self.ordinal_trace@,
                k <= t.len(),
                draw_idx == draws_in(t.take(k as int)),
                draw_idx <= k,
                first == first_surface(t.take(k as int)),
                last == last_surface(t.take(k as int)),
                rendered@ == render_trace(t.take(k as int)),
            decreases t.len() - k,
        {
            let (ord, handle) = self.ordinal_trace[k];
            proof {
                assert(t.take(k + 1).drop_last() =~= t.take(k as int));
                assert(t.take(k + 1).last() == (ord, handle));
            }
            if ord == 157 || ord == 158 || ord == 165 {
                if first.is_none() {
                    first = Some(ord);
                }
                last = Some(ord);
            }
            if k > 0 {
                rendered.append(",");
            }
            if ord == 37 {
                draw_idx += 1;
                rendered.append("37#");
                push_dec(&mut rendered, draw_idx as u64);
            } else if ord == 157 || ord == 158 || ord == 165 || ord == 159 {
                push_dec(&mut rendered, ord as u64);
                rendered.append("(h");
                push_hex_prefixed(&mut rendered, handle as u64, 0);
                rendered.append(")");
            } else {
                push_dec(&mut rendered, ord as u64);
            }
            k += 1;
        }
        assert(t.take(t.len() as int) =~= t);
        let mut out = String::from_str("lifecycle frame=");
        push_dec(&mut out, frame_index);
        out.append(" draws=");
        push_dec(&mut out, draw_count as u64);
        out.append(" first_surface=");
        push_surface(&mut out, first);
        out.append(" last_surface=");
        push_surface(&mut out, last);
        out.append(" trace=[");
        out.append(rendered.as_str());
        out.append("]");
        self.ordinal_trace.clear();
        Some(out)
    }

    /// A frame-begin event: opens a frame, or reports a double begin when
    /// one is already open. Leftover vertex arrays and a double begin are
    /// logged as anomalies; the skipped-draw count and the DMA-overlay flag
    /// are reset.
    pub fn begin_frame(&mut self) -> (r: BeginOutcome)
        requires
            old(self).diagnostics_budget * 4 <= usize::MAX,
        ensures
            begins(*old(self), r, *final(self)),
    {
        proof {
            reveal_strlit("stale_array_state_at_begin ordinal=");
            reveal_strlit(" leaked_arrays=");
            reveal_strlit("incomplete_frame double_begin ordinal=");
            reveal_strlit(" previous_not_presented draws=");
            assert(self.arrays@.dom().finite());
        }
        if !self.arrays.is_empty() {
            let mut msg = String::new();
            msg.append("stale_array_state_at_begin ordinal=");
            push_dec(&mut msg, self.candidate_begin_ordinal as u64);
            msg.append(" leaked_arrays=");
            push_dec(&mut msg, self.arrays.len() as u64);
            self.push_anomaly(msg);
        }
        self.skipped_draws_this_frame = 0;
        self.has_dma_overlay = false;
        if self.frame_active {
            let mut msg = String::new();
            msg.append("incomplete_frame double_begin ordinal=");
            push_dec(&mut msg, self.candidate_begin_ordinal as u64);
            msg.append(" previous_not_presented draws=");
            push_dec(&mut msg, self.draws.len() as u64);
            self.push_anomaly(msg);
            BeginOutcome::DoubleBegin
        } else {
            self.frame_active = true;
            BeginOutcome::Began
        }
    }

    /// Whether a present of this state copies the framebuffer (a frame is
    /// open and has draws or a DMA overlay).
    pub open spec fn presents_new_frame(&self) -> bool {
        self.frame_active && !(self.draws@.len() == 0 && !self.has_dma_overlay)
    }

    /// The handles of this frame's draws, in draw order.
    pub open spec fn handle_signature(&self) -> Seq<u32> {
        self.draws@.map_values(|d: LiveDrawRecord| d.handle)
    }

    /// Copy the framebuffer to the completed buffer and its presented view
    /// to the presented buffer and `presented`.
    fn store_presented_frame(&mut self)
        requires
            old(self).present_vflip && !old(self).ndc_frame ==> old(self).framebuffer@.len() >= FB_PIXELS,
        ensures
            final(self).completed_buffer@ == old(self).framebuffer@,
            final(self).presented_buffer@ == presented_view(old(self).framebuffer@, old(self).present_vflip, old(self).ndc_frame),
            final(self).presented matches Some(p) && p@ == presented_view(old(self).framebuffer@, old(self).present_vflip, old(self).ndc_frame),
            *final(self) == (LiveGlState {
                completed_buffer: final(self).completed_buffer,
                presented_buffer: final(self).presented_buffer,
                presented: final(self).presented,
                ..*old(self)
            }),
    {
        self.completed_buffer = copy_pixels(self.framebuffer.as_slice());
        let presented = self.present();
        self.presented_buffer = copy_pixels(presented.as_slice());
        self.presented = Some(presented);
    }

    /// Update the first/previous/unique presented-hash tracking with the
    /// hash `ph` of the frame numbered `completed_frame_index`.
    fn track_presented_hash(&mut self, ph: u64)
        requires
            old(self).prev_presented_hash == Some(ph) ==> old(self).repeated_presented_count < u64::MAX,
        ensures
            final(self).first_presented_hash == if old(self).first_presented_hash is None {
                Some(ph)
            } else {
                old(self).first_presented_hash
            },
            final(self).repeated_presented_count == if old(self).prev_presented_hash == Some(ph) {
                (old(self).repeated_presented_count + 1) as u64
            } else {
                old(self).repeated_presented_count
            },
            final(self).first_changed_frame == if old(self).prev_presented_hash != Some(ph)
                && old(self).completed_frame_index > 1 && old(self).first_changed_frame is None {
                Some(old(self).completed_frame_index)
            } else {
                old(self).first_changed_frame
            },
            final(self).prev_presented_hash == Some(ph),
            final(self).unique_presented_hashes@ == old(self).unique_presented_hashes@.insert(ph),
            *final(self) == (LiveGlState {
                first_presented_hash: final(self).first_presented_hash,
                repeated_presented_count: final(self).repeated_presented_count,
                first_changed_frame: final(self).first_changed_frame,
                prev_presented_hash: final(self).prev_presented_hash,
                unique_presented_hashes: final(self).unique_presented_hashes,
                ..*old(self)
            }),
    {
        if self.first_presented_hash.is_none() {
            self.first_presented_hash = Some(ph);
        }
        let repeated = match self.prev_presented_hash {
            Some(prev) => prev == ph,
            None => false,
        };
        if repeated {
            self.repeated_presented_count += 1;
        } else if self.completed_frame_index > 1 && self.first_changed_frame.is_none() {
            self.first_changed_frame = Some(self.completed_frame_index);
        }
        self.prev_presented_hash = Some(ph);
        self.unique_presented_hashes.insert(ph);
    }

    /// A frame-present event. Without an open frame it logs the anomaly and
    /// returns `None`. A frame with no draws and no DMA overlay keeps the
    /// previous presented image and only advances the frame index.
    /// Otherwise the framebuffer becomes the completed buffer, its presented
    /// view (see `present`) the presented buffer, and the repeat/first-change
    /// tracking of presented hashes is updated. The framebuffer itself is
    /// left as it is.
    #[verifier::rlimit(60)]
    pub fn complete_frame(&mut self) -> (r: Option<CompletedFrame>)
        requires
            old(self).diagnostics_budget * 4 <= usize::MAX,
            old(self).frame_active ==> old(self).completed_frame_index < u64::MAX,
            old(self).presents_new_frame() ==> {
                &&& old(self).completed_buffer@.len() == old(self).framebuffer@.len()
                &&& old(self).presented_buffer@.len() == old(self).framebuffer@.len()
                &&& (old(self).present_vflip && !old(self).ndc_frame ==> old(self).framebuffer@.len() >= FB_PIXELS)
                &&& old(self).prev_presented_hash == Some(framebuffer_hash_spec(presented_view(
                    old(self).framebuffer@, old(self).present_vflip, old(self).ndc_frame)))
                    ==> old(self).repeated_presented_count < u64::MAX
            },
        ensures
            completes(*old(self), r, *final(self)),
    {
        proof {
            reveal_strlit("present_without_active_frame ordinal=");
            reveal_strlit("clear_without_draws ordinal=");
            reveal_strlit(" (present with zero draws)");
            reveal_strlit("unexpected_draw_count ordinal=");
            reveal_strlit(" draws=");
            reveal_strlit(" (steady=4)");
        }
        if !self.frame_active {
            let mut msg = String::from_str("present_without_active_frame ordinal=");
            push_dec(&mut msg, self.candidate_present_ordinal as u64);
            self.push_anomaly(msg);
            return None;
        }
        self.frame_active = false;
        let draw_count = self.draws.len();
        if draw_count == 0 && !self.has_dma_overlay {
            let mut msg = String::from_str("clear_without_draws ordinal=");
            push_dec(&mut msg, self.candidate_present_ordinal as u64);
            msg.append(" (present with zero draws)");
            self.push_anomaly(msg);
            self.completed_frame_index += 1;
            let prev_hash = framebuffer_hash(self.presented_buffer.as_slice());
            return Some(CompletedFrame {
                index: self.completed_frame_index,
                draw_count,
                skipped_draws: self.skipped_draws_this_frame,
                internal_hash: framebuffer_hash(self.completed_buffer.as_slice()),
                presented_hash: prev_hash,
                handle_signature: Vec::new(),
            });
        }
        if draw_count != 0 && draw_count != 4 {
            let mut msg = String::from_str("unexpected_draw_count ordinal=");
            push_dec(&mut msg, self.candidate_present_ordinal as u64);
            msg.append(" draws=");
            push_dec(&mut msg, draw_count as u64);
            msg.append(" (steady=4)");
            self.push_anomaly(msg);
        }
        self.store_presented_frame();
        self.completed_frame_index += 1;
        let internal_hash = framebuffer_hash(self.completed_buffer.as_slice());
        let presented_hash = framebuffer_hash(self.presented_buffer.as_slice());
        let handle_signature = draw_handles(&self.draws);
        self.track_presented_hash(presented_hash);
        Some(CompletedFrame {
            index: self.completed_frame_index,
            draw_count,
            skipped_draws: self.skipped_draws_this_frame,
            internal_hash,
            presented_hash,
            handle_signature,
        })
    }


    /// A candidate present while capturing continuously (see
    /// `presents_candidate`); without continuous capture nothing happens.
    /// `dma` is the DMA framebuffer snapshot.
    pub fn present_candidate(&mut self, dma: &[u8]) -> (r: Option<CompletedFrame>)
        requires
            old(self).diagnostics_budget * 4 <= usize::MAX,
            old(self).completed_frame_index < u64::MAX,
            old(self).framebuffer@.len() >= FB_PIXELS,
            old(self).completed_buffer@.len() == old(self).framebuffer@.len(),
            old(self).presented_buffer@.len() == old(self).framebuffer@.len(),
            old(self).repeated_presented_count < u64::MAX,
        ensures
            !old(self).continuous_capture ==> r is None && *final(self) == *old(self),
            old(self).continuous_capture ==> r is Some && presents_candidate(*old(self), dma@, r, *final(self)),
    {
        if !self.continuous_capture {
            return None;
        }
        let ghost s0 = *self;
        let has = dma_has_content(dma);
        if has {
            self.overlay_dma_rgb565(dma);
        }
        let ghost s1 = *self;
        assert(overlay_if_content(s0, dma@, s1));
        match self.complete_frame() {
            Some(f) => {
                assert(s1.frame_active);
                Some(f)
            },
            None => {
                let ghost s2 = *self;
                assert(!s1.frame_active);
                self.begin_frame();
                let ghost s3 = *self;
                if has {
                    self.overlay_dma_rgb565(dma);
                }
                let ghost s4 = *self;
                assert(overlay_if_content(s3, dma@, s4));
                let r = self.complete_frame();
                assert(completes(s1, None::<CompletedFrame>, s2) && begins(s2, BeginOutcome::Began, s3)
                    && overlay_if_content(s3, dma@, s4) && completes(s4, r, *self));
                r
            },
        }
    }
    /// A draw arrived with no frame open: log it and open one.
    pub fn note_draw_outside_frame(&mut self)
        requires
            old(self).diagnostics_budget * 4 <= usize::MAX,
        ensures
            final(self).anomaly_log() == offer(old(self).anomaly_log(), old(self).diagnostics_budget as int, "draw_outside_active_frame"@),
            *final(self) == (LiveGlState { frame_anomalies: final(self).frame_anomalies, frame_active: true, ..*old(self) }),
    {
        self.push_anomaly(String::from_str("draw_outside_active_frame"));
        self.frame_active = true;
    }

    /// Count a skipped draw and log `skipped_draw {reason}`.
    /// The lifecycle-trace handle of an OpenGLES call: the surface or
    /// material handle in r0 for ordinals 157, 158, 159 and 165, else 0.
    pub open spec fn trace_handle(ordinal: u32, arg0: u32) -> u32 {
        if ordinal == 157 || ordinal == 158 || ordinal == 159 || ordinal == 165 { arg0 } else { 0 }
    }

    /// Note an OpenGLES call made during guest frame `frame`. The first call
    /// of a new frame closes the previous one: its lifecycle summary (when
    /// it traced any call) is returned and kept while the report budget
    /// lasts, and the per-frame state is reset. The call is then appended
    /// to the frame's trace.
    pub fn start_gl_call(&mut self, frame: u64, ordinal: u32, arg0: u32) -> (summary: Option<String>)
        ensures
            ({
                let boundary = frame != old(self).last_frame_counter;
                let traced = old(self).ordinal_trace@.len() > 0;
                &&& (boundary && traced) ==> (summary matches Some(line) && line@ == trace_summary(
                    old(self).last_frame_counter, old(self).draw_count_in_frame, old(self).ordinal_trace@))
                &&& !(boundary && traced) ==> summary is None
                &&& final(self).last_frame_counter == frame
                &&& final(self).ordinal_trace@ == if boundary {
                    seq![(ordinal, Self::trace_handle(ordinal, arg0))]
                } else {
                    old(self).ordinal_trace@.push((ordinal, Self::trace_handle(ordinal, arg0)))
                }
                &&& (boundary && traced && old(self).lifecycle_reports@.len() < old(self).lifecycle_report_budget)
                    ==> final(self).lifecycle_reports@.len() == old(self).lifecycle_reports@.len() + 1
                        && final(self).lifecycle_reports@.drop_last() == old(self).lifecycle_reports@
                        && (summary matches Some(line) && final(self).lifecycle_reports@.last()@ == line@)
                &&& !(boundary && traced && old(self).lifecycle_reports@.len() < old(self).lifecycle_report_budget)
                    ==> final(self).lifecycle_reports@ == old(self).lifecycle_reports@
                &&& boundary ==> {
                    &&& final(self).draws@.len() == 0
                    &&& final(self).draw_count_in_frame == 0
                    &&& final(self).arrays@ == Map::<u32, LiveArrayDef>::empty()
                    &&& final(self).enabled_arrays@ == Set::<u32>::empty()
                    &&& final(self).uploads@ == old(self).uploads@
                    &&& final(self).frame_active == old(self).frame_active
                }
                &&& !boundary ==> *final(self) == (LiveGlState {
                    ordinal_trace: final(self).ordinal_trace,
                    ..*old(self)
                })
            }),
    {
        let mut summary: Option<String> = None;
        if frame != self.last_frame_counter {
            let prev = self.last_frame_counter;
            let draws = self.draw_count_in_frame;
            summary = self.take_frame_trace_summary(prev, draws);
            if let Some(line) = &summary {
                if self.lifecycle_reports.len() < self.lifecycle_report_budget {
                    self.lifecycle_reports.push(line.clone());
                }
            }
            self.last_frame_counter = frame;
            self.reset_for_frame();
            assert(self.ordinal_trace@.len() == 0);
        }
        let h = if ordinal == 157 || ordinal == 158 || ordinal == 159 || ordinal == 165 { arg0 } else { 0 };
        let ghost before = self.ordinal_trace@;
        self.ordinal_trace.push((ordinal, h));
        proof {
            if frame != old(self).last_frame_counter {
                assert(self.ordinal_trace@ =~= seq![(ordinal, h)]);
            }
        }
        summary
    }

    /// The viewport call (ordinal 153): a zero or all-ones width or height
    /// means the full 320 x 240 screen.
    pub fn set_viewport(&mut self, w: u32, h: u32)
        ensures
            (final(self).viewport_w, final(self).viewport_h) == if w == 0 || h == 0 || w == u32::MAX || h == u32::MAX {
                (320u32, 240u32)
            } else {
                (w, h)
            },
            *final(self) == (LiveGlState { viewport_w: final(self).viewport_w, viewport_h: final(self).viewport_h, ..*old(self) }),
    {
        if w == 0 || h == 0 || w == u32::MAX || h == u32::MAX {
            self.viewport_w = 320;
            self.viewport_h = 240;
        } else {
            self.viewport_w = w;
            self.viewport_h = h;
        }
    }

    /// The texture bind (ordinal 4): a non-zero texture name becomes the
    /// pending name for the next upload unless one is already pending.
    pub fn note_bind_texture(&mut self, tex_name: u32)
        ensures
            final(self).pending_tex_name == if tex_name != 0 && old(self).pending_tex_name is None {
                Some(tex_name)
            } else {
                old(self).pending_tex_name
            },
            *final(self) == (LiveGlState { pending_tex_name: final(self).pending_tex_name, ..*old(self) }),
    {
        if tex_name != 0 && self.pending_tex_name.is_none() {
            self.pending_tex_name = Some(tex_name);
        }
    }

    /// The component count an array definition stands for: a count above
    /// 32 is a buffer offset, so the count is inferred from the array's role
    /// (4 for positions, capped by a `GL_FIXED` stride; 2 for texture
    /// coordinates; else 4).
    pub open spec fn effective_components(array_index: u32, component_count: u32, format: u32, stride: u32) -> u32 {
        if component_count <= 32 {
            component_count
        } else if array_index == 0 {
            if format == GL_FIXED && stride > 0 && stride % 4 == 0 && stride / 4 < 4 { stride / 4 } else { 4 }
        } else if array_index == 1 {
            2
        } else {
            4
        }
    }

    /// The array definition call (ordinal 137): the array is recorded with
    /// its effective component count under the current material epoch, and
    /// enabled when it points somewhere with components.
    pub fn define_array(&mut self, array_index: u32, component_count: u32, format: u32, stride: u32, guest_ptr: u32)
        -> (def: LiveArrayDef)
        ensures
            def == (LiveArrayDef {
                array_index,
                component_count: Self::effective_components(array_index, component_count, format, stride),
                format,
                stride,
                guest_ptr,
                valid: guest_ptr != 0 && Self::effective_components(array_index, component_count, format, stride) != 0,
                material_epoch: old(self).current_material_epoch,
            }),
            final(self).arrays@ == old(self).arrays@.insert(array_index, def),
            final(self).enabled_arrays@ == if def.valid {
                old(self).enabled_arrays@.insert(array_index)
            } else {
                old(self).enabled_arrays@
            },
            *final(self) == (LiveGlState {
                arrays: final(self).arrays,
                enabled_arrays: final(self).enabled_arrays,
                ..*old(self)
            }),
    {
        let mut comps = component_count;
        if comps > 32 {
            comps = if array_index == 0 {
                if format == GL_FIXED && stride > 0 && stride % 4 == 0 && stride / 4 < 4 { stride / 4 } else { 4 }
            } else if array_index == 1 {
                2
            } else {
                4
            };
        }
        let valid = guest_ptr != 0 && comps != 0;
        let def = LiveArrayDef {
            array_index,
            component_count: comps,
            format,
            stride,
            guest_ptr,
            valid,
            material_epoch: self.current_material_epoch,
        };
        self.arrays.insert(array_index, def);
        if valid {
            self.enabled_arrays.insert(array_index);
        }
        def
    }

    /// The array enable call (ordinal 40).
    pub fn enable_array(&mut self, array_index: u32)
        ensures
            final(self).enabled_arrays@ == old(self).enabled_arrays@.insert(array_index),
            *final(self) == (LiveGlState { enabled_arrays: final(self).enabled_arrays, ..*old(self) }),
    {
        self.enabled_arrays.insert(array_index);
    }

    /// The material bind call (ordinal 159): the handle and state pointer
    /// become current, the material epoch advances (wrapping), and the
    /// pointer-text carry starts over.
    pub fn bind_material(&mut self, handle: u32, state_ptr: u32)
        ensures
            *final(self) == (LiveGlState {
                current_handle: handle,
                current_state_ptr: state_ptr,
                current_material_epoch: if old(self).current_material_epoch == u64::MAX {
                    0
                } else {
                    (old(self).current_material_epoch + 1) as u64
                },
                pointer_text_carry_handle: None,
                pointer_text_carry: (0u32, 0u32),
                ..*old(self)
            }),
    {
        self.current_handle = handle;
        self.current_state_ptr = state_ptr;
        self.current_material_epoch = if self.current_material_epoch == u64::MAX { 0 } else { self.current_material_epoch + 1 };
        self.pointer_text_carry_handle = None;
        self.pointer_text_carry = (0, 0);
    }

    /// How many payload bytes the upload call (ordinal 99) reads: none when
    /// the source pointer or a dimension is zero or the format is not one
    /// the renderer decodes.
    pub fn upload_payload_len(width: u32, height: u32, source_format: u32, pixel_type: u32, source_ptr: u32)
        -> (r: Option<usize>)
        requires
            format_from_gl_spec(source_format, pixel_type) matches Some(f)
                ==> width * height * bytes_per_pixel(f) <= usize::MAX,
        ensures
            r == if source_ptr == 0 || width == 0 || height == 0 {
                None::<usize>
            } else {
                match format_from_gl_spec(source_format, pixel_type) {
                    None => None,
                    Some(f) => Some(pix_payload_size_spec(f, width as int, height as int) as usize),
                }
            },
    {
        if source_ptr == 0 || width == 0 || height == 0 {
            return None;
        }
        match format_from_gl(source_format, pixel_type) {
            None => None,
            Some(f) => Some(pix_payload_size(f, width as usize, height as usize)),
        }
    }

    /// Record an upload whose payload was read: it takes the next index and
    /// the pending texture name (which is then cleared), and the host file
    /// backing its source, when known, with the source's offset there.
    pub fn store_upload(&mut self, target: u32, width: u32, height: u32, source_format: u32, pixel_type: u32,
        source_ptr: u32, payload: &[u8], backing: Option<GlFileBacking>)
        requires
            format_from_gl_spec(source_format, pixel_type) matches Some(f)
                ==> width * height * bytes_per_pixel(f) <= usize::MAX,
        ensures
            final(self).uploads@.len() == old(self).uploads@.len() + 1,
            final(self).uploads@.drop_last() == old(self).uploads@,
            positions_indexed(old(self).uploads@) ==> positions_indexed(final(self).uploads@),
            ({
                let u = final(self).uploads@.last();
                &&& upload_from_args(LiveGlUpload { source_file: None, source_file_offset: None, ..u },
                    old(self).uploads@.len() as usize, target, width, height, source_format, pixel_type, source_ptr,
                    payload@, old(self).pending_tex_name)
                &&& match backing {
                    Some(b) => (u.source_file matches Some(p) && p@ == b.path@)
                        && u.source_file_offset == Some(if source_ptr >= b.base_addr { (source_ptr - b.base_addr) as u32 } else { 0u32 }),
                    None => u.source_file is None && u.source_file_offset is None,
                }
            }),
            final(self).pending_tex_name is None,
            *final(self) == (LiveGlState {
                uploads: final(self).uploads,
                pending_tex_name: None,
                ..*old(self)
            }),
    {
        let index = self.uploads.len();
        let tex_name = self.pending_tex_name;
        self.pending_tex_name = None;
        let mut upload = Self::build_upload(index, target, width, height, source_format, pixel_type, source_ptr,
            payload, tex_name);
        if let Some(b) = backing {
            upload.source_file_offset = Some(source_ptr.saturating_sub(b.base_addr));
            upload.source_file = Some(b.path);
        }
        let ghost before = self.uploads@;
        self.uploads.push(upload);
        assert(self.uploads@.drop_last() =~= before);
    }

    /// The resource call (ordinal 45) names a texture through descriptor
    /// words 1 and 2: a small handle with a GL colour format becomes the
    /// pending texture name.
    pub fn note_resource_descriptor(&mut self, w1: u32, w2: u32)
        ensures
            final(self).pending_tex_name == if w1 != 0 && w1 < WORK_RAM_BASE
                && (w2 == 0x1906 || w2 == 0x1907 || w2 == 0x1908 || w2 == 0x190a) {
                Some(w1)
            } else {
                old(self).pending_tex_name
            },
            *final(self) == (LiveGlState { pending_tex_name: final(self).pending_tex_name, ..*old(self) }),
    {
        if w1 != 0 && w1 < WORK_RAM_BASE && (w2 == 0x1906 || w2 == 0x1907 || w2 == 0x1908 || w2 == 0x190a) {
            self.pending_tex_name = Some(w1);
        }
    }

    /// The first upload from `from` on with this source pointer, size and
    /// source format.
    pub open spec fn first_same_source(s: Seq<LiveGlUpload>, ptr: u32, w: usize, h: usize, fmt: u32, from: int)
        -> Option<int>
        decreases s.len() - from,
    {
        if from < 0 || from >= s.len() {
            None
        } else if s[from].source_ptr == ptr && s[from].width == w && s[from].height == h && s[from].source_format == fmt {
            Some(from)
        } else {
            Self::first_same_source(s, ptr, w, h, fmt, from + 1)
        }
    }

    proof fn lemma_first_same_source(s: Seq<LiveGlUpload>, ptr: u32, w: usize, h: usize, fmt: u32, from: int)
        ensures
            Self::first_same_source(s, ptr, w, h, fmt, from) matches Some(k) ==> 0 <= from <= k < s.len(),
        decreases s.len() - from,
    {
        if 0 <= from < s.len() {
            Self::lemma_first_same_source(s, ptr, w, h, fmt, from + 1);
        }
    }

    /// Record the texture resource `req`, whose pixels are `bytes`: an
    /// upload of the same source already recorded is reused; otherwise a
    /// new upload, named by the resource's handle, is added. Either way
    /// the handle maps to the upload's index.
    pub fn store_resource(&mut self, req: ResourceRequest, bytes: &[u8])
        requires
            bytes@.len() == req.width * req.height * bytes_per_pixel(req.format),
        ensures
            positions_indexed(old(self).uploads@) ==> positions_indexed(final(self).uploads@),
            match Self::first_same_source(old(self).uploads@, req.pixel_ptr, req.width, req.height, req.resource_format, 0) {
                Some(k) => {
                    &&& final(self).uploads@ == old(self).uploads@
                    &&& final(self).resource_uploads_by_handle@
                        == old(self).resource_uploads_by_handle@.insert(req.handle, old(self).uploads@[k].index)
                },
                None => {
                    let n = old(self).uploads@.len();
                    let u = final(self).uploads@.last();
                    &&& final(self).uploads@.len() == n + 1
                    &&& final(self).uploads@.drop_last() == old(self).uploads@
                    &&& u.index == n && u.target == 0 && u.width == req.width && u.height == req.height
                    &&& u.source_format == req.resource_format && u.pixel_type == 0 && u.source_ptr == req.pixel_ptr
                    &&& u.source_file is None && u.source_file_offset is None
                    &&& u.format == Some(req.format) && u.tex_name == Some(req.handle)
                    &&& u.texture matches Some(t) && decodes_upload(t, bytes@, req.width as int, req.height as int, req.format)
                    &&& final(self).resource_uploads_by_handle@
                        == old(self).resource_uploads_by_handle@.insert(req.handle, n as usize)
                },
            },
            *final(self) == (LiveGlState {
                uploads: final(self).uploads,
                resource_uploads_by_handle: final(self).resource_uploads_by_handle,
                ..*old(self)
            }),
    {
        let mut k: usize = 0;
        proof {
            Self::lemma_first_same_source(old(self).uploads@, req.pixel_ptr, req.width, req.height, req.resource_format, 0);
        }
        while k < self.uploads.len()
            invariant
                *self == *old(self),
                k <= self.uploads@.len(),
                Self::first_same_source(self.uploads@, req.pixel_ptr, req.width, req.height, req.resource_format, 0)
                    == Self::first_same_source(self.uploads@, req.pixel_ptr, req.width, req.height, req.resource_format, k as int),
            decreases self.uploads@.len() - k,
        {
            let u = &self.uploads[k];
            if u.source_ptr == req.pixel_ptr && u.width == req.width && u.height == req.height
                && u.source_format == req.resource_format {
                let index = u.index;
                self.resource_uploads_by_handle.insert(req.handle, index);
                return;
            }
            k += 1;
        }
        let index = self.uploads.len();
        let texture = Texture::from_bytes(bytes, req.width, req.height, req.format, Rgba8::rgba(255, 255, 255, 255));
        let ghost before = self.uploads@;
        self.uploads.push(LiveGlUpload {
            index,
            target: 0,
            width: req.width,
            height: req.height,
            source_format: req.resource_format,
            pixel_type: 0,
            source_ptr: req.pixel_ptr,
            source_file: None,
            source_file_offset: None,
            format: Some(req.format),
            texture: Some(texture),
            tex_name: Some(req.handle),
        });
        assert(self.uploads@.drop_last() =~= before);
        self.resource_uploads_by_handle.insert(req.handle, index);
    }

    /// One diagnostic line per text object with pushed characters, in
    /// ascending object order (see `diag_line`); none without any.
    pub fn take_text_char_diag(&self, frame: u64) -> (lines: Vec<String>)
        ensures
            ({
                let objs = self.text_char_seqs@.dom();
                &&& lines@.len() == objs.len()
                &&& exists|order: Seq<u32>| {
                    &&& order.to_set() == objs
                    &&& order.len() == objs.len()
                    &&& strictly_ascending(order)
                    &&& forall|i: int| 0 <= i < order.len() ==> (#[trigger] lines@[i])@ == diag_line(frame, order[i],
                        self.text_char_seqs@[order[i]]@,
                        if self.text_char_consumed@.contains_key(order[i]) { self.text_char_consumed@[order[i]] } else { 0 })
                }
            }),
    {
        let mut keys: Vec<u32> = Vec::new();
        let ghost r = vstd::std_specs::iter::IteratorSpec::remaining(&vstd::std_specs::hash::spec_keys_iter(&self.text_char_seqs));
        for k in it: self.text_char_seqs.keys()
            invariant
                it.seq() == r,
                keys@ == r.take(it.index() as int).unref(),
        {
            keys.push(*k);
            proof {
                assert(keys@ =~= r.take(it.index() + 1).unref());
            }
        }
        proof {
            assert(keys@ =~= r.unref());
        }
        let order = sort_distinct_u32(keys);
        let mut lines: Vec<String> = Vec::new();
        let mut i: usize = 0;
        while i < order.len()
            invariant
                i <= order@.len(),
                lines@.len() == i,
                forall|j: int| 0 <= j < i ==> (#[trigger] lines@[j])@ == diag_line(frame, order@[j],
                    self.text_char_seqs@[order@[j]]@,
                    if self.text_char_consumed@.contains_key(order@[j]) { self.text_char_consumed@[order@[j]] } else { 0 }),
                forall|j: int| 0 <= j < order@.len() ==> self.text_char_seqs@.contains_key(#[trigger] order@[j]),
            decreases order@.len() - i,
        {
            let text_obj = order[i];
            let seq = self.text_char_seqs.get(&text_obj).unwrap();
            let consumed: usize = match self.text_char_consumed.get(&text_obj) {
                Some(c) => *c,
                None => 0,
            };
            lines.push(Self::diag_text(frame, text_obj, seq, consumed));
            i += 1;
        }
        lines
    }

    fn diag_text(frame: u64, text_obj: u32, seq: &Vec<u32>, consumed: usize) -> (line: String)
        ensures
            line@ == diag_line(frame, text_obj, seq@, consumed),
    {
        proof {
            reveal_strlit("text_char_diag frame=");
            reveal_strlit(" text_obj=");
            reveal_strlit(" pushed=");
            reveal_strlit(" consumed=");
            reveal_strlit(" ascii=\"");
            reveal_strlit("\" hex=[");
            reveal_strlit("]");
            reveal_strlit(" MISMATCH");
            reveal_strlit("0x");
            reveal_strlit(",");
        }
        let mut line = String::from_str("text_char_diag frame=");
        push_dec(&mut line, frame);
        line.append(" text_obj=");
        push_hex_prefixed(&mut line, text_obj as u64, 10);
        line.append(" pushed=");
        push_dec(&mut line, seq.len() as u64);
        line.append(" consumed=");
        push_dec(&mut line, consumed as u64);
        line.append(" ascii=\"");
        let ghost head = line@;
        let mut k: usize = 0;
        while k < seq.len()
            invariant
                k <= seq@.len(),
                line@ == head + diag_ascii(seq@.take(k as int)),
            decreases seq@.len() - k,
        {
            let c = seq[k];
            let shown = if 0x20 <= c && c < 0x7f { (c as u8) as char } else { '.' };
            proof {
                if 0x20 <= c && c < 0x7f {
                    assert((c as u8) as char == c as char);
                }
            }
            push_char(&mut line, shown);
            k += 1;
            assert(diag_ascii(seq@.take(k as int)) =~= diag_ascii(seq@.take(k - 1)).push(shown));
        }
        assert(seq@.take(seq@.len() as int) =~= seq@);
        line.append("\" hex=[");
        let ghost head2 = line@;
        let mut k: usize = 0;
        while k < seq.len()
            invariant
                k <= seq@.len(),
                line@ == head2 + diag_hex(seq@.take(k as int)),
            decreases seq@.len() - k,
        {
            if k > 0 {
                line.append(",");
            }
            line.append("0x");
            push_hex(&mut line, seq[k] as u64, 2);
            proof {
                assert(seq@.take(k + 1).drop_last() =~= seq@.take(k as int));
            }
            k += 1;
        }
        line.append("]");
        if seq.len() != consumed {
            line.append(" MISMATCH");
        }
        line
    }

    /// The upload `select_upload_by_tex_name` picks, kept only when the
    /// upload at that position serves the coordinate needs.
    pub fn select_upload_by_tex_name_containing(&self, tex_name: u32, need_u: UvNeed, need_v: UvNeed)
        -> (r: Option<usize>)
        ensures
            r == match index_at(self.uploads@, last_with_name(self.uploads@, tex_name, true, self.uploads@.len() as int)) {
                Some(i) => if i < self.uploads@.len() && serves(self.uploads@[i as int].width, need_u)
                    && serves(self.uploads@[i as int].height, need_v) {
                    Some(i)
                } else {
                    None::<usize>
                },
                None => None::<usize>,
            },
    {
        proof {
            lemma_last_with_name_bounds(self.uploads@, tex_name, true, self.uploads@.len() as int);
        }
        match self.select_upload_by_tex_name(tex_name) {
            Some(i) => {
                if i < self.uploads.len() && texture_extent_contains(self.uploads[i].width, need_u)
                    && texture_extent_contains(self.uploads[i].height, need_v) {
                    Some(i)
                } else {
                    None
                }
            },
            None => None,
        }
    }

    /// The decoded upload that serves the needs, smallest by (area, index).
    pub fn select_smallest_containing_upload(&self, need_u: UvNeed, need_v: UvNeed) -> (r: Option<usize>)
        ensures
            r == index_at(self.uploads@, smallest_upload(self.uploads@,
                containing_ok(need_u, need_v), self.uploads@.len() as int)),
    {
        let ghost ok = containing_ok(need_u, need_v);
        let mut best: Option<usize> = None;
        let mut k: usize = 0;
        while k < self.uploads.len()
            invariant
                ok == containing_ok(need_u, need_v),
                k <= self.uploads@.len(),
                best == as_position(smallest_upload(self.uploads@, ok, k as int)),
            decreases self.uploads@.len() - k,
        {
            proof {
                lemma_smallest_upload_bounds(self.uploads@, ok, k as int);
            }
            let u = &self.uploads[k];
            if u.texture.is_some() && texture_extent_contains(u.width, need_u) && texture_extent_contains(u.height, need_v) {
                let better = match best {
                    Some(p) => upload_smaller(u, &self.uploads[p]),
                    None => true,
                };
                if better {
                    best = Some(k);
                }
            }
            k += 1;
        }
        proof {
            lemma_smallest_upload_bounds(self.uploads@, ok, self.uploads@.len() as int);
        }
        match best {
            Some(p) => Some(self.uploads[p].index),
            None => None,
        }
    }

    /// The upload for a draw whose coordinates span `span_w` x `span_h`:
    /// one of exactly that size, else the smallest that serves the needs.
    pub fn select_upload_for_span(&self, span_w: usize, span_h: usize, need_u: UvNeed, need_v: UvNeed)
        -> (r: Option<usize>)
        ensures
            r == match first_with_dims(self.uploads@, span_w, span_h, 0) {
                Some(p) => Some(self.uploads@[p].index),
                None => index_at(self.uploads@, smallest_upload(self.uploads@, containing_ok(need_u, need_v),
                    self.uploads@.len() as int)),
            },
    {
        match self.select_upload_by_dims(span_w, span_h) {
            Some(i) => Some(i),
            None => self.select_smallest_containing_upload(need_u, need_v),
        }
    }

    /// The latest decoded upload named `tex_name` that serves the needs.
    pub fn select_latest_containing_upload_with_tex_name(&self, tex_name: u32, need_u: UvNeed, need_v: UvNeed)
        -> (r: Option<usize>)
        ensures
            r == index_at(self.uploads@, last_upload(self.uploads@, named_containing_ok(tex_name, need_u, need_v),
                self.uploads@.len() as int)),
    {
        let ghost ok = named_containing_ok(tex_name, need_u, need_v);
        let mut k: usize = self.uploads.len();
        while k > 0
            invariant
                ok == named_containing_ok(tex_name, need_u, need_v),
                k <= self.uploads@.len(),
                last_upload(self.uploads@, ok, self.uploads@.len() as int) == last_upload(self.uploads@, ok, k as int),
            decreases k,
        {
            let u = &self.uploads[k - 1];
            if u.texture.is_some() && u.tex_name == Some(tex_name) && texture_extent_contains(u.width, need_u)
                && texture_extent_contains(u.height, need_v) {
                return Some(u.index);
            }
            k -= 1;
        }
        None
    }

    /// The upload named `tex_name` for a draw spanning `span_w` x `span_h`:
    /// the latest of exactly that size, else the latest serving the needs.
    pub fn select_upload_for_span_with_tex_name(&self, tex_name: u32, span_w: usize, span_h: usize, need_u: UvNeed,
        need_v: UvNeed) -> (r: Option<usize>)
        ensures
            r == match index_at(self.uploads@, last_upload(self.uploads@, named_span_ok(tex_name, span_w, span_h),
                self.uploads@.len() as int)) {
                Some(i) => Some(i),
                None => index_at(self.uploads@, last_upload(self.uploads@,
                    named_containing_ok(tex_name, need_u, need_v), self.uploads@.len() as int)),
            },
    {
        let ghost ok = named_span_ok(tex_name, span_w, span_h);
        let mut k: usize = self.uploads.len();
        while k > 0
            invariant
                ok == named_span_ok(tex_name, span_w, span_h),
                k <= self.uploads@.len(),
                last_upload(self.uploads@, ok, self.uploads@.len() as int) == last_upload(self.uploads@, ok, k as int),
            decreases k,
        {
            let u = &self.uploads[k - 1];
            if u.texture.is_some() && u.tex_name == Some(tex_name) && u.width == span_w && u.height == span_h {
                return Some(u.index);
            }
            k -= 1;
        }
        self.select_latest_containing_upload_with_tex_name(tex_name, need_u, need_v)
    }

    /// The smallest decoded A8 upload at least `need_w` x `need_h` whose
    /// sides are multiples of the `cell_w` x `cell_h` glyph cell, with at
    /// least 32 cells across.
    fn smallest_font_atlas(&self, cell_w: usize, cell_h: usize, need_w: usize, need_h: usize) -> (r: Option<usize>)
        requires
            cell_w > 0,
            cell_h > 0,
        ensures
            r == index_at(self.uploads@, smallest_upload(self.uploads@,
                font_atlas_ok(cell_w as int, cell_h as int, need_w, need_h), self.uploads@.len() as int)),
    {
        let ghost ok = font_atlas_ok(cell_w as int, cell_h as int, need_w, need_h);
        let mut best: Option<usize> = None;
        let mut k: usize = 0;
        while k < self.uploads.len()
            invariant
                ok == font_atlas_ok(cell_w as int, cell_h as int, need_w, need_h),
                cell_w > 0,
                cell_h > 0,
                k <= self.uploads@.len(),
                best == as_position(smallest_upload(self.uploads@, ok, k as int)),
            decreases self.uploads@.len() - k,
        {
            proof {
                lemma_smallest_upload_bounds(self.uploads@, ok, k as int);
            }
            let u = &self.uploads[k];
            if u.texture.is_some() && u.format == Some(TextureFormat::A8) && u.width >= need_w && u.height >= need_h
                && u.width % cell_w == 0 && u.height % cell_h == 0 && u.width / cell_w >= 32 {
                let better = match best {
                    Some(p) => upload_smaller(u, &self.uploads[p]),
                    None => true,
                };
                if better {
                    best = Some(k);
                }
            }
            k += 1;
        }
        proof {
            lemma_smallest_upload_bounds(self.uploads@, ok, self.uploads@.len() as int);
        }
        match best {
            Some(p) => Some(self.uploads[p].index),
            None => None,
        }
    }

    /// The font atlas for a generated glyph spanning `span_w` x `span_h`:
    /// tried with that cell, then with a cell one texel larger each way.
    pub fn select_upload_for_generated_text(&self, span_w: usize, span_h: usize, need_w: usize, need_h: usize)
        -> (r: Option<usize>)
        ensures
            ({
                let atlas = |cw: int, ch: int| index_at(self.uploads@, smallest_upload(self.uploads@,
                    font_atlas_ok(cw, ch, need_w, need_h), self.uploads@.len() as int));
                let c1w: int = if span_w == 0 { 1 } else { span_w as int };
                let c1h: int = if span_h == 0 { 1 } else { span_h as int };
                let c2w: int = if span_w == usize::MAX { usize::MAX as int } else { span_w + 1 };
                let c2h: int = if span_h == usize::MAX { usize::MAX as int } else { span_h + 1 };
                r == match atlas(c1w, c1h) {
                    Some(i) => Some(i),
                    None => atlas(c2w, c2h),
                }
            }),
    {
        let c1w = if span_w == 0 { 1 } else { span_w };
        let c1h = if span_h == 0 { 1 } else { span_h };
        match self.smallest_font_atlas(c1w, c1h, need_w, need_h) {
            Some(i) => Some(i),
            None => {
                let c2w = span_w.saturating_add(1);
                let c2h = span_h.saturating_add(1);
                self.smallest_font_atlas(c2w, c2h, need_w, need_h)
            },
        }
    }

    /// The PopCap board material (handle 0x16 in the two PopCap titles)
    /// spanning the whole screen takes the closest large-enough upload,
    /// RGB565 first; no other draw does.
    pub fn select_popcap_surface_upload(&self, handle: u32, span_w: usize, span_h: usize) -> (r: Option<usize>)
        ensures
            r == if !(self.game_id@ == "44444"@ || self.game_id@ == "55555"@) || handle != 0x16 || span_w != FB_WIDTH
                || span_h != FB_HEIGHT {
                None::<usize>
            } else {
                index_at(self.uploads@, least_popcap(self.uploads@, popcap_ok(), self.uploads@.len() as int))
            },
    {
        if !(str_eq(self.game_id.as_str(), "44444") || str_eq(self.game_id.as_str(), "55555")) || handle != 0x16
            || span_w != FB_WIDTH || span_h != FB_HEIGHT {
            return None;
        }
        let ghost ok = popcap_ok();
        let mut best: Option<usize> = None;
        let mut k: usize = 0;
        while k < self.uploads.len()
            invariant
                ok == popcap_ok(),
                k <= self.uploads@.len(),
                best == as_position(least_popcap(self.uploads@, ok, k as int)),
            decreases self.uploads@.len() - k,
        {
            proof {
                lemma_least_popcap_bounds(self.uploads@, ok, k as int);
            }
            let u = &self.uploads[k];
            if u.texture.is_some() && u.width >= FB_WIDTH - 64 && u.height >= FB_HEIGHT - 64 {
                let better = match best {
                    Some(p) => key4_less(popcap_key_exec(u), popcap_key_exec(&self.uploads[p])),
                    None => true,
                };
                if better {
                    best = Some(k);
                }
            }
            k += 1;
        }
        proof {
            lemma_least_popcap_bounds(self.uploads@, ok, self.uploads@.len() as int);
        }
        match best {
            Some(p) => Some(self.uploads[p].index),
            None => None,
        }
    }

    /// Ms. PAC-MAN's launch image: for material 0x19 in that title, the
    /// first decoded, unnamed, fileless 512 x 256 upload.
    pub fn select_mspacman_initial_splash_upload(&self, handle: u32) -> (r: Option<usize>)
        ensures
            r == if self.game_id@ != "14004"@ || handle != 0x19 {
                None::<usize>
            } else {
                index_at(self.uploads@, first_upload(self.uploads@, splash_ok(), 0))
            },
    {
        if !str_eq(self.game_id.as_str(), "14004") || handle != 0x19 {
            return None;
        }
        let ghost ok = splash_ok();
        let mut k: usize = 0;
        while k < self.uploads.len()
            invariant
                ok == splash_ok(),
                self.game_id@ == "14004"@,
                handle == 0x19,
                k <= self.uploads@.len(),
                first_upload(self.uploads@, ok, 0) == first_upload(self.uploads@, ok, k as int),
            decreases self.uploads@.len() - k,
        {
            let u = &self.uploads[k];
            if u.texture.is_some() && u.width == 512 && u.height == 256 && u.tex_name.is_none() && u.source_file.is_none() {
                return Some(u.index);
            }
            k += 1;
        }
        None
    }

    /// Whether the game is one of the titles that submit normalized
    /// coordinates (their positions are then scaled to the screen when
    /// they all lie in [0, 2)).
    pub fn is_ndc_title(&self) -> (b: bool)
        ensures
            b == (lower(self.game_id@) == "1500c"@ || lower(self.game_id@) == "1500e"@ || self.game_id@ == "50513"@
                || self.game_id@ == "50514"@),
    {
        let cs = chars_of(self.game_id.as_str());
        let n = cs.len();
        let low = lower_string_of(cs.as_slice(), 0, n);
        proof {
            assert(cs@.subrange(0, n as int) =~= self.game_id@);
        }
        str_eq(low.as_str(), "1500c") || str_eq(low.as_str(), "1500e") || str_eq(self.game_id.as_str(), "50513")
            || str_eq(self.game_id.as_str(), "50514")
    }

    /// What `select_upload_for_generated_text` returns.
    pub open spec fn generated_text_pick(&self, span_w: usize, span_h: usize, need_w: usize, need_h: usize)
        -> Option<usize> {
        let atlas = |cw: int, ch: int| index_at(self.uploads@, smallest_upload(self.uploads@,
            font_atlas_ok(cw, ch, need_w, need_h), self.uploads@.len() as int));
        let c1w: int = if span_w == 0 { 1 } else { span_w as int };
        let c1h: int = if span_h == 0 { 1 } else { span_h as int };
        let c2w: int = if span_w == usize::MAX { usize::MAX as int } else { span_w + 1 };
        let c2h: int = if span_h == usize::MAX { usize::MAX as int } else { span_h + 1 };
        match atlas(c1w, c1h) {
            Some(i) => Some(i),
            None => atlas(c2w, c2h),
        }
    }

    /// What `select_upload_by_tex_name_containing` returns.
    pub open spec fn name_containing_pick(&self, tex_name: u32, need_u: UvNeed, need_v: UvNeed) -> Option<usize> {
        match index_at(self.uploads@, last_with_name(self.uploads@, tex_name, true, self.uploads@.len() as int)) {
            Some(i) => if i < self.uploads@.len() && serves(self.uploads@[i as int].width, need_u)
                && serves(self.uploads@[i as int].height, need_v) {
                Some(i)
            } else {
                None::<usize>
            },
            None => None::<usize>,
        }
    }

    /// What `select_upload_for_span_with_tex_name` returns.
    pub open spec fn span_name_pick(&self, tex_name: u32, span_w: usize, span_h: usize, need_u: UvNeed, need_v: UvNeed)
        -> Option<usize> {
        match index_at(self.uploads@, last_upload(self.uploads@, named_span_ok(tex_name, span_w, span_h),
            self.uploads@.len() as int)) {
            Some(i) => Some(i),
            None => index_at(self.uploads@, last_upload(self.uploads@,
                named_containing_ok(tex_name, need_u, need_v), self.uploads@.len() as int)),
        }
    }

    /// Whether a draw on `tex_name` samples a font atlas: the upload the
    /// glyph, name or span rules pick is a decoded A8 texture at least 64
    /// wide and at most 64 high.
    pub fn is_font_atlas_for(&self, tex_name: u32, span_w: usize, span_h: usize, need_u: UvNeed, need_v: UvNeed)
        -> (b: bool)
        ensures
            b == match (match self.generated_text_pick(span_w, span_h, need_u.extent, need_v.extent) {
                Some(i) => Some(i),
                None => match self.name_containing_pick(tex_name, need_u, need_v) {
                    Some(i) => Some(i),
                    None => self.span_name_pick(tex_name, span_w, span_h, need_u, need_v),
                },
            }) {
                Some(i) => i < self.uploads@.len() && self.uploads@[i as int].texture is Some
                    && self.uploads@[i as int].format == Some(TextureFormat::A8)
                    && self.uploads@[i as int].width >= 64 && self.uploads@[i as int].height <= 64,
                None => false,
            },
    {
        let pick = match self.select_upload_for_generated_text(span_w, span_h, need_u.extent, need_v.extent) {
            Some(i) => Some(i),
            None => match self.select_upload_by_tex_name_containing(tex_name, need_u, need_v) {
                Some(i) => Some(i),
                None => self.select_upload_for_span_with_tex_name(tex_name, span_w, span_h, need_u, need_v),
            },
        };
        match pick {
            Some(i) => i < self.uploads.len() && self.uploads[i].texture.is_some()
                && self.uploads[i].format == Some(TextureFormat::A8) && self.uploads[i].width >= 64
                && self.uploads[i].height <= 64,
            None => false,
        }
    }

    /// The texture-coordinate array a draw reads, and whether it is
    /// enabled: array 1 when defined, else array 2 when it is a valid
    /// two-component `GL_FIXED` array, else none.
    pub fn explicit_uv_array(&self) -> (r: (Option<LiveArrayDef>, bool))
        ensures
            r == if self.arrays@.contains_key(1) {
                (Some(self.arrays@[1]), self.enabled_arrays@.contains(1))
            } else if self.arrays@.contains_key(2) && self.arrays@[2].valid && self.arrays@[2].format == GL_FIXED
                && self.arrays@[2].component_count == 2 {
                (Some(self.arrays@[2]), self.enabled_arrays@.contains(2))
            } else {
                (None::<LiveArrayDef>, false)
            },
    {
        if let Some(def) = self.arrays.get(&1) {
            return (Some(*def), self.enabled_arrays.contains(&1));
        }
        if let Some(def) = self.arrays.get(&2) {
            if def.valid && def.format == GL_FIXED && def.component_count == 2 {
                return (Some(*def), self.enabled_arrays.contains(&2));
            }
        }
        (None, false)
    }

    pub fn note_skipped_draw(&mut self, reason: String)
        requires
            old(self).diagnostics_budget * 4 <= usize::MAX,
            old(self).skipped_draws_this_frame < usize::MAX,
        ensures
            final(self).anomaly_log() == offer(old(self).anomaly_log(), old(self).diagnostics_budget as int, "skipped_draw "@ + reason@),
            *final(self) == (LiveGlState {
                frame_anomalies: final(self).frame_anomalies,
                skipped_draws_this_frame: (old(self).skipped_draws_this_frame + 1) as usize,
                ..*old(self)
            }),
    {
        proof {
            reveal_strlit("skipped_draw ");
        }
        self.skipped_draws_this_frame += 1;
        let mut msg = String::from_str("skipped_draw ");
        msg.append(reason.as_str());
        self.push_anomaly(msg);
    }

    /// The presented framebuffer: a copy, flipped vertically when the flip
    /// is enabled and the frame did not use normalized coordinates. The
    /// internal framebuffer is not changed.
    pub fn present(&self) -> (out: Vec<Rgba8>)
        requires
            self.present_vflip && !self.ndc_frame ==> self.framebuffer@.len() >= FB_PIXELS,
        ensures
            out@ == presented_view(self.framebuffer@, self.present_vflip, self.ndc_frame),
    {
        let mut out = copy_pixels(self.framebuffer.as_slice());
        if self.present_vflip && !self.ndc_frame {
            flip_vertical_in_place(out.as_mut_slice(), FB_WIDTH, FB_HEIGHT);
        }
        out
    }

    /// Hash of the internal framebuffer.
    pub fn internal_hash(&self) -> (h: u64)
        ensures
            h == framebuffer_hash_spec(self.framebuffer@),
    {
        framebuffer_hash(self.framebuffer.as_slice())
    }

    /// Hash of the presented framebuffer.
    pub fn presented_hash(&self) -> (h: u64)
        requires
            self.present_vflip && !self.ndc_frame ==> self.framebuffer@.len() >= FB_PIXELS,
        ensures
            h == framebuffer_hash_spec(presented_view(self.framebuffer@, self.present_vflip, self.ndc_frame)),
    {
        let presented = self.present();
        framebuffer_hash(presented.as_slice())
    }
}

} // verus!
