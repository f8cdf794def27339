use vstd::prelude::*;

verus! {

/// One 8-bit-per-channel RGBA pixel.
#[derive(Debug, Copy, Clone, PartialEq, Eq, Structural)]
pub struct Rgba8 {
    pub r: u8,
    pub g: u8,
    pub b: u8,
    pub a: u8,
}

impl Rgba8 {
    pub fn rgba(r: u8, g: u8, b: u8, a: u8) -> (px: Self)
        ensures
            px == (Rgba8 { r, g, b, a }),
    {
        Self { r, g, b, a }
    }
}

/// The texel layouts the renderer can decode.
#[derive(Debug, Copy, Clone, PartialEq, Eq, Structural)]
pub enum TextureFormat {
    Rgb565,
    Rgba5551,
    Rgba4444,
    Rgba8888,
    LuminanceAlpha88,
    A8,
}

/// Little-endian 16-bit value of two bytes.
pub open spec fn le16(lo: u8, hi: u8) -> int {
    lo + 256 * hi
}

/// Replicate the top bits of a 5-bit channel into the low bits of a byte.
pub open spec fn widen5(c: int) -> int {
    c * 8 + c / 4
}

/// Replicate the top bits of a 6-bit channel into the low bits of a byte.
pub open spec fn widen6(c: int) -> int {
    c * 4 + c / 16
}

/// The colour a 16-bit resource texel stands for: RGB565 when `rgb565`,
/// otherwise X1R5G5B5. The value `0xf83e` (magenta) is the transparent key.
pub open spec fn expand16_spec(value: int, rgb565: bool) -> Rgba8 {
    let r = if rgb565 { (value / 2048) % 32 } else { (value / 1024) % 32 };
    let g = if rgb565 { (value / 32) % 64 } else { (value / 32) % 32 };
    let b = value % 32;
    Rgba8 {
        r: widen5(r) as u8,
        g: (if rgb565 { widen6(g) } else { widen5(g) }) as u8,
        b: widen5(b) as u8,
        a: if value == 0xf83e { 0 } else { 255 },
    }
}

/// A 16-bit resource texel expands by its bit fields: RGB565 has red in
/// bits 11..15, green in 5..10 and blue in 0..4; X1R5G5B5 has red in bits
/// 10..14, green in 5..9 and blue in 0..4. A 5-bit field `c` widens to
/// `(c << 3) | (c >> 2)` and a 6-bit one to `(c << 2) | (c >> 4)`; the
/// magenta key 0xf83e alone is transparent.
pub proof fn lemma_expand16_fields(value: u16, rgb565: bool)
    ensures
        ({
            let t = expand16_spec(value as int, rgb565);
            let b5 = value & 0x1f;
            &&& rgb565 ==> t.r == (((value >> 11u16) & 0x1f) << 3u16 | ((value >> 11u16) & 0x1f) >> 2u16)
                && t.g == (((value >> 5u16) & 0x3f) << 2u16 | ((value >> 5u16) & 0x3f) >> 4u16)
            &&& !rgb565 ==> t.r == (((value >> 10u16) & 0x1f) << 3u16 | ((value >> 10u16) & 0x1f) >> 2u16)
                && t.g == (((value >> 5u16) & 0x1f) << 3u16 | ((value >> 5u16) & 0x1f) >> 2u16)
            &&& t.b == ((b5 << 3u16) | (b5 >> 2u16))
            &&& t.a == if value == 0xf83e { 0u8 } else { 255u8 }
        }),
{
    assert((((value >> 11u16) & 0x1f) << 3u16 | ((value >> 11u16) & 0x1f) >> 2u16)
        == ((value / 2048) % 32) * 8 + ((value / 2048) % 32) / 4) by (bit_vector);
    assert((((value >> 5u16) & 0x3f) << 2u16 | ((value >> 5u16) & 0x3f) >> 4u16)
        == ((value / 32) % 64) * 4 + ((value / 32) % 64) / 16) by (bit_vector);
    assert((((value >> 10u16) & 0x1f) << 3u16 | ((value >> 10u16) & 0x1f) >> 2u16)
        == ((value / 1024) % 32) * 8 + ((value / 1024) % 32) / 4) by (bit_vector);
    assert((((value >> 5u16) & 0x1f) << 3u16 | ((value >> 5u16) & 0x1f) >> 2u16)
        == ((value / 32) % 32) * 8 + ((value / 32) % 32) / 4) by (bit_vector);
    assert((((value & 0x1f) << 3u16) | ((value & 0x1f) >> 2u16)) == (value % 32) * 8 + (value % 32) / 4) by (bit_vector);
}

/// Expand a 16-bit resource texel to RGBA8; see `expand16_spec`.
pub fn expand16(value: u16, rgb565: bool) -> (px: Rgba8)
    ensures
        px == expand16_spec(value as int, rgb565),
{
    let r: u16 = if rgb565 { (value / 2048) % 32 } else { (value / 1024) % 32 };
    let g: u16 = if rgb565 { (value / 32) % 64 } else { (value / 32) % 32 };
    let b: u16 = value % 32;
    let green: u16 = if rgb565 { g * 4 + g / 16 } else { g * 8 + g / 4 };
    let alpha: u8 = if value == 0xf83e { 0 } else { 255 };
    Rgba8 { r: (r * 8 + r / 4) as u8, g: green as u8, b: (b * 8 + b / 4) as u8, a: alpha }
}

/// Source-over compositing of `src` onto `dst` with straight (non
/// premultiplied) alpha and rounding to the nearest byte.
pub open spec fn blend_spec(dst: Rgba8, src: Rgba8) -> Rgba8 {
    let sa = src.a as int;
    let da = dst.a as int;
    let inv = 255 - sa;
    let out_a = sa + (da * inv + 127) / 255;
    if out_a == 0 {
        Rgba8 { r: 0, g: 0, b: 0, a: 0 }
    } else {
        Rgba8 {
            r: blend_channel(src.r as int, dst.r as int, sa, da, out_a) as u8,
            g: blend_channel(src.g as int, dst.g as int, sa, da, out_a) as u8,
            b: blend_channel(src.b as int, dst.b as int, sa, da, out_a) as u8,
            a: out_a as u8,
        }
    }
}

pub open spec fn blend_channel(s: int, d: int, sa: int, da: int, out_a: int) -> int {
    (s * sa + d * da * (255 - sa) / 255 + out_a / 2) / out_a
}

/// Composite `src` over `dst`.
pub fn blend_src_over(dst: Rgba8, src: Rgba8) -> (out: Rgba8)
    ensures
        out == blend_spec(dst, src),
{
    let sa = src.a as u32;
    let da = dst.a as u32;
    let inv_sa = 255 - sa;
    assert(da * inv_sa <= 255 * 255) by (nonlinear_arith)
        requires da <= 255, inv_sa <= 255;
    let out_a = sa + (da * inv_sa + 127) / 255;
    if out_a == 0 {
        return Rgba8 { r: 0, g: 0, b: 0, a: 0 };
    }
    let r = blend_one(src.r, dst.r, sa, da, out_a);
    let g = blend_one(src.g, dst.g, sa, da, out_a);
    let b = blend_one(src.b, dst.b, sa, da, out_a);
    Rgba8 { r, g, b, a: out_a as u8 }
}

fn blend_one(src_c: u8, dst_c: u8, sa: u32, da: u32, out_a: u32) -> (c: u8)
    requires
        sa <= 255,
        da <= 255,
        out_a == sa + (da * (255 - sa) + 127) / 255,
        out_a > 0,
    ensures
        c == blend_channel(src_c as int, dst_c as int, sa as int, da as int, out_a as int) as u8,
{
    let inv = 255 - sa;
    assert(src_c as u32 * sa <= 255 * 255) by (nonlinear_arith)
        requires src_c <= 255, sa <= 255;
    assert(dst_c as u32 * da <= 255 * 255) by (nonlinear_arith)
        requires dst_c <= 255, da <= 255;
    assert((dst_c as u32 * da) * inv <= 255 * 255 * 255) by (nonlinear_arith)
        requires dst_c as u32 * da <= 255 * 255, inv <= 255;
    assert(out_a <= 510) by (nonlinear_arith)
        requires out_a == sa + (da * (255 - sa) + 127) / 255, sa <= 255, da <= 255;
    let src_p = src_c as u32 * sa;
    let dst_p = dst_c as u32 * da * inv / 255;
    ((src_p + dst_p + out_a / 2) / out_a) as u8
}

/// `(255 * c + 127) / 255 == c` for a byte `c`.
proof fn lemma_scale_255(c: int)
    requires
        0 <= c <= 255,
    ensures
        (c * 255 + 127) / 255 == c,
{
    assert((c * 255 + 127) / 255 == c) by (nonlinear_arith)
        requires 0 <= c <= 255;
}

/// An opaque source covers the destination completely.
pub proof fn lemma_blend_opaque_source(dst: Rgba8, src: Rgba8)
    requires
        src.a == 255,
    ensures
        blend_spec(dst, src) == src,
{
    let da = dst.a as int;
    assert(da * (255 - 255) == 0);
    assert(255int / 2 == 127);
    lemma_scale_255(src.r as int);
    lemma_scale_255(src.g as int);
    lemma_scale_255(src.b as int);
    assert((dst.g as int) * da * 0 == 0);
    assert((dst.b as int) * da * 0 == 0);
    assert((dst.r as int) * da * 0 == 0);
}

/// A fully transparent source leaves a visible destination unchanged.
pub proof fn lemma_blend_transparent_source(dst: Rgba8, src: Rgba8)
    requires
        src.a == 0,
        dst.a > 0,
    ensures
        blend_spec(dst, src) == dst,
{
    let da = dst.a as int;
    assert((da * 255 + 127) / 255 == da) by (nonlinear_arith)
        requires 0 < da <= 255;
    assert forall|d: int| 0 <= d <= 255 implies (#[trigger] (d * 0) + d * da * 255 / 255 + da / 2) / da == d by {
        assert(d * da * 255 / 255 == d * da) by (nonlinear_arith)
            requires 0 <= d, 0 < da;
        assert((d * da + da / 2) / da == d) by (nonlinear_arith)
            requires 0 <= d, 0 < da;
    }
    assert((dst.r as int) * 0 == 0 && (dst.g as int) * 0 == 0 && (dst.b as int) * 0 == 0);
    assert(blend_channel(src.r as int, dst.r as int, 0, da, da) == dst.r as int);
    assert(blend_channel(src.g as int, dst.g as int, 0, da, da) == dst.g as int);
    assert(blend_channel(src.b as int, dst.b as int, 0, da, da) == dst.b as int);
}

/// Compositing treats the three colour channels alike: rotating them
/// (r, g, b to g, b, r) or swapping red and green in both inputs does the
/// same to the result, and alpha is untouched by either.
pub proof fn lemma_blend_channels_alike(dst: Rgba8, src: Rgba8)
    ensures
        blend_spec(Rgba8 { r: dst.g, g: dst.b, b: dst.r, a: dst.a }, Rgba8 { r: src.g, g: src.b, b: src.r, a: src.a })
            == ({
                let o = blend_spec(dst, src);
                Rgba8 { r: o.g, g: o.b, b: o.r, a: o.a }
            }),
        blend_spec(Rgba8 { r: dst.g, g: dst.r, ..dst }, Rgba8 { r: src.g, g: src.r, ..src })
            == ({
                let o = blend_spec(dst, src);
                Rgba8 { r: o.g, g: o.r, ..o }
            }),
{
}

/// Modulation treats all four channels alike and does not depend on which
/// colour is the tint: rotating the channels (r, g, b, a to g, b, a, r) or
/// swapping red and green of both colours does the same to the result.
pub proof fn lemma_modulate_channels_alike(src: Rgba8, tint: Rgba8)
    ensures
        modulate_spec(Rgba8 { r: src.g, g: src.b, b: src.a, a: src.r }, Rgba8 { r: tint.g, g: tint.b, b: tint.a, a: tint.r })
            == ({
                let o = modulate_spec(src, tint);
                Rgba8 { r: o.g, g: o.b, b: o.a, a: o.r }
            }),
        modulate_spec(Rgba8 { r: src.g, g: src.r, ..src }, Rgba8 { r: tint.g, g: tint.r, ..tint })
            == ({
                let o = modulate_spec(src, tint);
                Rgba8 { r: o.g, g: o.r, ..o }
            }),
        modulate_spec(src, tint) == modulate_spec(tint, src),
{
    assert(src.r * tint.r == tint.r * src.r && src.g * tint.g == tint.g * src.g && src.b * tint.b == tint.b * src.b
        && src.a * tint.a == tint.a * src.a) by (nonlinear_arith);
}

/// Modulating by opaque white changes nothing.
pub proof fn lemma_modulate_white(src: Rgba8)
    ensures
        modulate_spec(src, Rgba8 { r: 255, g: 255, b: 255, a: 255 }) == src,
{
    lemma_scale_255(src.r as int);
    lemma_scale_255(src.g as int);
    lemma_scale_255(src.b as int);
    lemma_scale_255(src.a as int);
}

/// Per-channel product of two colours, rounded.
pub open spec fn modulate_spec(src: Rgba8, tint: Rgba8) -> Rgba8 {
    Rgba8 {
        r: ((src.r * tint.r + 127) / 255) as u8,
        g: ((src.g * tint.g + 127) / 255) as u8,
        b: ((src.b * tint.b + 127) / 255) as u8,
        a: ((src.a * tint.a + 127) / 255) as u8,
    }
}

fn mul_channel(a: u8, b: u8) -> (c: u8)
    ensures
        c == (a * b + 127) / 255,
{
    assert(a as u16 * b as u16 <= 255 * 255) by (nonlinear_arith)
        requires a <= 255, b <= 255;
    assert((a * b + 127) / 255 <= 255) by (nonlinear_arith)
        requires a * b <= 255 * 255, a * b >= 0;
    ((a as u16 * b as u16 + 127) / 255) as u8
}

/// Modulate a sampled texel by a tint colour.
pub fn modulate(src: Rgba8, tint: Rgba8) -> (out: Rgba8)
    ensures
        out == modulate_spec(src, tint),
{
    Rgba8 {
        r: mul_channel(src.r, tint.r),
        g: mul_channel(src.g, tint.g),
        b: mul_channel(src.b, tint.b),
        a: mul_channel(src.a, tint.a),
    }
}

pub const FNV_OFFSET: u64 = 0xcbf29ce484222325;

pub const FNV_PRIME: u64 = 0x100000001b3;

/// One FNV-1a step over a byte.
pub open spec fn fnv_step(h: u64, byte: u8) -> u64 {
    vstd::wrapping::u64_specs::wrapping_mul(h ^ (byte as u64), FNV_PRIME)
}

/// FNV-1a over the R, G, B, A bytes of every pixel in order, continuing from `h`.
pub open spec fn fnv_pixels(h: u64, pixels: Seq<Rgba8>) -> u64
    decreases pixels.len(),
{
    if pixels.len() == 0 {
        h
    } else {
        let p = pixels.last();
        fnv_step(fnv_step(fnv_step(fnv_step(fnv_pixels(h, pixels.drop_last()), p.r), p.g), p.b), p.a)
    }
}

/// The 64-bit FNV-1a hash of a framebuffer's bytes in R, G, B, A order.
pub open spec fn framebuffer_hash_spec(fb: Seq<Rgba8>) -> u64 {
    fnv_pixels(FNV_OFFSET, fb)
}

/// The framebuffer hash is the 64-bit FNV-1a fold over the bytes
/// r, g, b, a of each pixel in index order: the empty framebuffer hashes
/// to the offset basis 0xcbf29ce484222325, and appending a pixel takes the
/// hash of the prefix through four more steps `h' = (h ^ byte) * prime
/// mod 2^64` with prime 0x100000001b3, in r, g, b, a order.
pub proof fn lemma_framebuffer_hash_fold(fb: Seq<Rgba8>, p: Rgba8)
    ensures
        framebuffer_hash_spec(Seq::<Rgba8>::empty()) == 0xcbf2_9ce4_8422_2325u64,
        framebuffer_hash_spec(fb.push(p)) == ({
            let h0 = framebuffer_hash_spec(fb);
            let h1 = (((h0 ^ (p.r as u64)) as nat * 0x100000001b3nat) % 0x1_0000_0000_0000_0000nat) as u64;
            let h2 = (((h1 ^ (p.g as u64)) as nat * 0x100000001b3nat) % 0x1_0000_0000_0000_0000nat) as u64;
            let h3 = (((h2 ^ (p.b as u64)) as nat * 0x100000001b3nat) % 0x1_0000_0000_0000_0000nat) as u64;
            (((h3 ^ (p.a as u64)) as nat * 0x100000001b3nat) % 0x1_0000_0000_0000_0000nat) as u64
        }),
{
    assert(fb.push(p).drop_last() =~= fb);
}

/// Hash a framebuffer with 64-bit FNV-1a over its RGBA bytes.
pub fn framebuffer_hash(fb: &[Rgba8]) -> (hash: u64)
    ensures
        hash == framebuffer_hash_spec(fb@),
{
    let mut hash: u64 = FNV_OFFSET;
    let mut i: usize = 0;
    while i < fb.len()
        invariant
            i <= fb.len(),
            hash == fnv_pixels(FNV_OFFSET, fb@.take(i as int)),
        decreases fb.len() - i,
    {
        let px = fb[i];
        hash = (hash ^ (px.r as u64)).wrapping_mul(FNV_PRIME);
        hash = (hash ^ (px.g as u64)).wrapping_mul(FNV_PRIME);
        hash = (hash ^ (px.b as u64)).wrapping_mul(FNV_PRIME);
        hash = (hash ^ (px.a as u64)).wrapping_mul(FNV_PRIME);
        assert(fb@.take(i + 1).drop_last() == fb@.take(i as int));
        i += 1;
    }
    assert(fb@.take(fb.len() as int) == fb@);
    hash
}


/// A decoded texture: `width * height` pixels in row-major order.
#[derive(Debug, Clone, PartialEq, Eq)]
pub struct Texture {
    pub width: usize,
    pub height: usize,
    pub pixels: Vec<Rgba8>,
}

impl Texture {
    /// The pixel buffer holds exactly one pixel per texel.
    pub open spec fn wf(&self) -> bool {
        self.pixels@.len() == self.width * self.height
    }

    /// Decode `raw` texels of `format` into a `width` x `height` texture.
    pub fn from_bytes(raw: &[u8], width: usize, height: usize, format: TextureFormat, a8_tint: Rgba8) -> (tex: Self)
        requires
            raw@.len() == width * height * bytes_per_pixel(format),
        ensures
            tex.width == width,
            tex.height == height,
            tex.wf(),
            forall|i: int| 0 <= i < width * height ==> #[trigger] tex.pixels@[i] == decode_texel(raw@, i, format, a8_tint),
    {
        let pixels = decode_texture_pixels(raw, width, height, format, a8_tint);
        Self { width, height, pixels }
    }
}

/// Bytes one texel of `format` occupies in an upload.
pub open spec fn bytes_per_pixel(format: TextureFormat) -> int {
    match format {
        TextureFormat::Rgb565 | TextureFormat::Rgba5551 | TextureFormat::Rgba4444 => 2,
        TextureFormat::Rgba8888 => 4,
        TextureFormat::LuminanceAlpha88 => 2,
        TextureFormat::A8 => 1,
    }
}

/// Scale an `bits`-wide channel value to 0..=255 (truncating division).
pub open spec fn scale_channel(c: int, max: int) -> int {
    c * 255 / max
}

/// The colour of texel `i` of a `format` upload. A8 texels take their RGB
/// from `tint` and their alpha from the byte.
pub open spec fn decode_texel(raw: Seq<u8>, i: int, format: TextureFormat, tint: Rgba8) -> Rgba8 {
    match format {
        TextureFormat::Rgb565 => {
            let px = le16(raw[2 * i], raw[2 * i + 1]);
            Rgba8 {
                r: scale_channel((px / 2048) % 32, 31) as u8,
                g: scale_channel((px / 32) % 64, 63) as u8,
                b: scale_channel(px % 32, 31) as u8,
                a: 255,
            }
        },
        TextureFormat::Rgba5551 => {
            let px = le16(raw[2 * i], raw[2 * i + 1]);
            Rgba8 {
                r: scale_channel((px / 2048) % 32, 31) as u8,
                g: scale_channel((px / 64) % 32, 31) as u8,
                b: scale_channel((px / 2) % 32, 31) as u8,
                a: if px % 2 != 0 { 255 } else { 0 },
            }
        },
        TextureFormat::Rgba4444 => {
            let px = le16(raw[2 * i], raw[2 * i + 1]);
            Rgba8 {
                r: scale_channel((px / 4096) % 16, 15) as u8,
                g: scale_channel((px / 256) % 16, 15) as u8,
                b: scale_channel((px / 16) % 16, 15) as u8,
                a: scale_channel(px % 16, 15) as u8,
            }
        },
        TextureFormat::Rgba8888 => Rgba8 {
            r: raw[4 * i],
            g: raw[4 * i + 1],
            b: raw[4 * i + 2],
            a: raw[4 * i + 3],
        },
        TextureFormat::LuminanceAlpha88 => Rgba8 {
            r: raw[2 * i],
            g: raw[2 * i],
            b: raw[2 * i],
            a: raw[2 * i + 1],
        },
        TextureFormat::A8 => Rgba8 { r: tint.r, g: tint.g, b: tint.b, a: raw[i] },
    }
}

proof fn lemma_u16_fields(px: u16)
    ensures
        (px >> 11u16) & 0x1f == (px / 2048) % 32,
        (px >> 5u16) & 0x3f == (px / 32) % 64,
        px & 0x1f == px % 32,
        (px >> 6u16) & 0x1f == (px / 64) % 32,
        (px >> 1u16) & 0x1f == (px / 2) % 32,
        px & 1 == px % 2,
        (px >> 12u16) & 0xf == (px / 4096) % 16,
        (px >> 8u16) & 0xf == (px / 256) % 16,
        (px >> 4u16) & 0xf == (px / 16) % 16,
        px & 0xf == px % 16,
{
    assert((px >> 11u16) & 0x1f == (px / 2048) % 32) by (bit_vector);
    assert((px >> 5u16) & 0x3f == (px / 32) % 64) by (bit_vector);
    assert(px & 0x1f == px % 32) by (bit_vector);
    assert((px >> 6u16) & 0x1f == (px / 64) % 32) by (bit_vector);
    assert((px >> 1u16) & 0x1f == (px / 2) % 32) by (bit_vector);
    assert(px & 1 == px % 2) by (bit_vector);
    assert((px >> 12u16) & 0xf == (px / 4096) % 16) by (bit_vector);
    assert((px >> 8u16) & 0xf == (px / 256) % 16) by (bit_vector);
    assert((px >> 4u16) & 0xf == (px / 16) % 16) by (bit_vector);
    assert(px & 0xf == px % 16) by (bit_vector);
}

proof fn lemma_le_u16(lo: u8, hi: u8)
    ensures
        ((lo as u16) | ((hi as u16) << 8u16)) == lo + 256 * hi,
{
    assert(((lo as u16) | ((hi as u16) << 8u16)) == (lo as u16) + 256 * (hi as u16)) by (bit_vector);
}

/// What each format's texel decodes to, read off the little-endian texel
/// word `px` by its bit fields as GL lays them out: RGB565 is red in bits
/// 11..15, green in 5..10, blue in 0..4; RGBA5551 is red 11..15, green
/// 6..10, blue 1..5 and alpha bit 0; RGBA4444 is red 12..15, green 8..11,
/// blue 4..7 and alpha 0..3; each field is scaled to 0..255 by
/// `field * 255 / field_max`. RGBA8888 takes its four bytes in order,
/// luminance-alpha repeats the luminance byte, and A8 takes the tint's
/// colour with the byte as alpha.
pub proof fn lemma_decode_texel_fields(raw: Seq<u8>, i: int, format: TextureFormat, tint: Rgba8)
    requires
        0 <= i,
        (i + 1) * bytes_per_pixel(format) <= raw.len(),
    ensures
        ({
            let px: u16 = (raw[2 * i] as u16) | ((raw[2 * i + 1] as u16) << 8u16);
            let t = decode_texel(raw, i, format, tint);
            &&& format == TextureFormat::Rgb565 ==> t == Rgba8 {
                r: (((px >> 11u16) & 0x1f) * 255 / 31) as u8,
                g: (((px >> 5u16) & 0x3f) * 255 / 63) as u8,
                b: ((px & 0x1f) * 255 / 31) as u8,
                a: 255,
            }
            &&& format == TextureFormat::Rgba5551 ==> t == Rgba8 {
                r: (((px >> 11u16) & 0x1f) * 255 / 31) as u8,
                g: (((px >> 6u16) & 0x1f) * 255 / 31) as u8,
                b: (((px >> 1u16) & 0x1f) * 255 / 31) as u8,
                a: if px & 1 != 0 { 255u8 } else { 0u8 },
            }
            &&& format == TextureFormat::Rgba4444 ==> t == Rgba8 {
                r: (((px >> 12u16) & 0xf) * 255 / 15) as u8,
                g: (((px >> 8u16) & 0xf) * 255 / 15) as u8,
                b: (((px >> 4u16) & 0xf) * 255 / 15) as u8,
                a: ((px & 0xf) * 255 / 15) as u8,
            }
            &&& format == TextureFormat::Rgba8888 ==> t == Rgba8 {
                r: raw[4 * i], g: raw[4 * i + 1], b: raw[4 * i + 2], a: raw[4 * i + 3],
            }
            &&& format == TextureFormat::LuminanceAlpha88 ==> t == Rgba8 {
                r: raw[2 * i], g: raw[2 * i], b: raw[2 * i], a: raw[2 * i + 1],
            }
            &&& format == TextureFormat::A8 ==> t == Rgba8 { r: tint.r, g: tint.g, b: tint.b, a: raw[i] }
        }),
{
    let lo = raw[2 * i];
    let hi = raw[2 * i + 1];
    lemma_le_u16(lo, hi);
    let px: u16 = (lo as u16) | ((hi as u16) << 8u16);
    lemma_u16_fields(px);
}

/// A texel reads only its own bytes, so any buffer that starts with the
/// same `n` texels decodes texel `i < n` alike.
pub proof fn lemma_decode_texel_prefix(a: Seq<u8>, b: Seq<u8>, i: int, format: TextureFormat, tint: Rgba8)
    requires
        0 <= i,
        (i + 1) * bytes_per_pixel(format) <= a.len() <= b.len(),
        a == b.take(a.len() as int),
    ensures
        decode_texel(a, i, format, tint) == decode_texel(b, i, format, tint),
{
}

fn scale_u16(c: u16, max: u16) -> (v: u8)
    requires
        1 <= max,
        c <= max,
    ensures
        v == scale_channel(c as int, max as int),
{
    assert((c as int) * 255 / (max as int) <= 255) by (nonlinear_arith)
        requires c <= max, max >= 1, c >= 0;
    ((c as u32 * 255) / max as u32) as u8
}

/// Read a little-endian `u16` at byte offset `k`.
pub fn read_le16(raw: &[u8], k: usize) -> (v: u16)
    requires
        k + 2 <= raw@.len(),
    ensures
        v == le16(raw@[k as int], raw@[k as int + 1]),
{
    raw[k] as u16 + 256 * (raw[k + 1] as u16)
}

fn decode_one(raw: &[u8], i: usize, format: TextureFormat, tint: Rgba8) -> (px: Rgba8)
    requires
        i * bytes_per_pixel(format) + bytes_per_pixel(format) <= raw@.len(),
    ensures
        px == decode_texel(raw@, i as int, format, tint),
{
    assert(raw@.len() == raw.len());
    match format {
        TextureFormat::Rgb565 => {
            let v: u16 = read_le16(raw, 2 * i);
            Rgba8 {
                r: scale_u16((v / 2048) % 32, 31),
                g: scale_u16((v / 32) % 64, 63),
                b: scale_u16(v % 32, 31),
                a: 255,
            }
        },
        TextureFormat::Rgba5551 => {
            let v: u16 = read_le16(raw, 2 * i);
            Rgba8 {
                r: scale_u16((v / 2048) % 32, 31),
                g: scale_u16((v / 64) % 32, 31),
                b: scale_u16((v / 2) % 32, 31),
                a: if v % 2 != 0 { 255 } else { 0 },
            }
        },
        TextureFormat::Rgba4444 => {
            let v: u16 = read_le16(raw, 2 * i);
            Rgba8 {
                r: scale_u16((v / 4096) % 16, 15),
                g: scale_u16((v / 256) % 16, 15),
                b: scale_u16((v / 16) % 16, 15),
                a: scale_u16(v % 16, 15),
            }
        },
        TextureFormat::Rgba8888 => Rgba8 { r: raw[4 * i], g: raw[4 * i + 1], b: raw[4 * i + 2], a: raw[4 * i + 3] },
        TextureFormat::LuminanceAlpha88 => Rgba8 { r: raw[2 * i], g: raw[2 * i], b: raw[2 * i], a: raw[2 * i + 1] },
        TextureFormat::A8 => Rgba8 { r: tint.r, g: tint.g, b: tint.b, a: raw[i] },
    }
}

fn format_bytes(format: TextureFormat) -> (n: usize)
    ensures
        n == bytes_per_pixel(format),
{
    match format {
        TextureFormat::Rgb565 | TextureFormat::Rgba5551 | TextureFormat::Rgba4444 => 2,
        TextureFormat::Rgba8888 => 4,
        TextureFormat::LuminanceAlpha88 => 2,
        TextureFormat::A8 => 1,
    }
}

/// Decode a tightly packed upload of `width * height` texels of `format`.
/// The byte count must match the dimensions exactly.
pub fn decode_texture_pixels(raw: &[u8], width: usize, height: usize, format: TextureFormat, a8_tint: Rgba8) -> (pixels: Vec<Rgba8>)
    requires
        raw@.len() == width * height * bytes_per_pixel(format),
    ensures
        pixels@.len() == width * height,
        forall|i: int| 0 <= i < width * height ==> #[trigger] pixels@[i] == decode_texel(raw@, i, format, a8_tint),
{
    let bpp = format_bytes(format);
    let count = raw.len() / bpp;
    assert(count == width * height) by (nonlinear_arith)
        requires count as int == raw@.len() as int / bpp as int, raw@.len() == width * height * bpp, bpp >= 1;
    let mut pixels: Vec<Rgba8> = Vec::new();
    let mut i: usize = 0;
    while i < count
        invariant
            count == width * height,
            bpp == bytes_per_pixel(format),
            raw@.len() == count * bpp,
            i <= count,
            pixels@.len() == i,
            forall|j: int| 0 <= j < i ==> #[trigger] pixels@[j] == decode_texel(raw@, j, format, a8_tint),
        decreases count - i,
    {
        assert(i * bpp + bpp <= count * bpp) by (nonlinear_arith)
            requires i + 1 <= count, bpp >= 0;
        let px = decode_one(raw, i, format, a8_tint);
        pixels.push(px);
        i += 1;
    }
    pixels
}

/// A texture decoded from a manifest-listed resource file rather than
/// uploaded by the guest.
#[derive(Debug, Clone, PartialEq, Eq)]
pub struct DecodedManifestTexture {
    pub width: usize,
    pub height: usize,
    pub pixels: Vec<Rgba8>,
    pub format: TextureFormat,
}

/// Little-endian 32-bit value at byte offset `o`.
pub open spec fn le32(d: Seq<u8>, o: int) -> int {
    d[o] + 256 * d[o + 1] + 65536 * d[o + 2] + 16777216 * d[o + 3]
}

/// `le32` reads the least significant byte first: byte `o + j` is the
/// `j`-th byte of the value from the low end.
pub proof fn lemma_le32_byte_order(d: Seq<u8>, o: int)
    ensures
        le32(d, o) % 256 == d[o],
        (le32(d, o) / 256) % 256 == d[o + 1],
        (le32(d, o) / 65536) % 256 == d[o + 2],
        le32(d, o) / 16777216 == d[o + 3],
{
    let (a, b, c, e) = (d[o] as int, d[o + 1] as int, d[o + 2] as int, d[o + 3] as int);
    assert(le32(d, o) == a + 256 * (b + 256 * (c + 256 * e)));
    assert((a + 256 * (b + 256 * (c + 256 * e))) % 256 == a) by (nonlinear_arith)
        requires 0 <= a < 256, 0 <= b < 256, 0 <= c < 256, 0 <= e < 256;
    assert((a + 256 * (b + 256 * (c + 256 * e))) / 256 == b + 256 * (c + 256 * e)) by (nonlinear_arith)
        requires 0 <= a < 256, 0 <= b < 256, 0 <= c < 256, 0 <= e < 256;
    assert((b + 256 * (c + 256 * e)) % 256 == b) by (nonlinear_arith)
        requires 0 <= b < 256, 0 <= c < 256, 0 <= e < 256;
    assert((a + 256 * (b + 256 * (c + 256 * e))) / 65536 == c + 256 * e) by (nonlinear_arith)
        requires 0 <= a < 256, 0 <= b < 256, 0 <= c < 256, 0 <= e < 256;
    assert((c + 256 * e) % 256 == c) by (nonlinear_arith)
        requires 0 <= c < 256, 0 <= e < 256;
    assert((a + 256 * (b + 256 * (c + 256 * e))) / 16777216 == e) by (nonlinear_arith)
        requires 0 <= a < 256, 0 <= b < 256, 0 <= c < 256, 0 <= e < 256;
}

/// Little-endian 16-bit value at byte offset `o`.
pub open spec fn le16_at(d: Seq<u8>, o: int) -> int {
    le16(d[o], d[o + 1])
}

/// Read a little-endian `u32` at byte offset `k`.
pub fn read_le32(raw: &[u8], k: usize) -> (v: u32)
    requires
        k + 4 <= raw@.len(),
    ensures
        v == le32(raw@, k as int),
{
    raw[k] as u32 + 256 * (raw[k + 1] as u32) + 65536 * (raw[k + 2] as u32) + 16777216 * (raw[k + 3] as u32)
}

// ---------------------------------------------------------------- .ipd

/// `.ipd`: 32-bit width and height, eight bytes of type/format, then
/// `width * height` RGB565 texels.
pub open spec fn ipd_valid(d: Seq<u8>) -> bool {
    &&& d.len() >= 16
    &&& 0 < le32(d, 0) <= 4096
    &&& 0 < le32(d, 4) <= 4096
    &&& d.len() >= 16 + le32(d, 0) * le32(d, 4) * 2
}

/// `t` is the decoding of the valid `.ipd` file `d`.
pub open spec fn ipd_decodes_to(d: Seq<u8>, t: DecodedManifestTexture) -> bool {
    &&& t.width == le32(d, 0)
    &&& t.height == le32(d, 4)
    &&& t.format == TextureFormat::Rgb565
    &&& t.pixels@.len() == t.width * t.height
    &&& forall|i: int| 0 <= i < t.width * t.height ==> #[trigger] t.pixels@[i]
        == expand16_spec(le16_at(d, 16 + 2 * i), true)
}

/// Decode an `.ipd` image (RGB565 payload after a 16-byte header).
pub fn decode_manifest_ipd(data: &[u8]) -> (res: Option<DecodedManifestTexture>)
    ensures
        res is Some <==> ipd_valid(data@),
        res matches Some(t) ==> ipd_decodes_to(data@, t),
{
    assert(data@.len() == data.len());
    if data.len() < 16 {
        return None;
    }
    let width = read_le32(data, 0);
    let height = read_le32(data, 4);
    if width == 0 || height == 0 || width > 4096 || height > 4096 {
        return None;
    }
    assert(width * height <= 4096 * 4096) by (nonlinear_arith)
        requires width <= 4096, height <= 4096;
    let count = width as usize * height as usize;
    if (data.len() as u64) < 16 + (count as u64) * 2 {
        return None;
    }
    let mut pixels: Vec<Rgba8> = Vec::new();
    let mut i: usize = 0;
    while i < count
        invariant
            count == width * height,
            count <= 4096 * 4096,
            data@.len() == data.len(),
            data@.len() >= 16 + count * 2,
            i <= count,
            pixels@.len() == i,
            forall|j: int| 0 <= j < i ==> #[trigger] pixels@[j] == expand16_spec(le16_at(data@, 16 + 2 * j), true),
        decreases count - i,
    {
        let v = read_le16(data, 16 + i * 2);
        pixels.push(expand16(v, true));
        i += 1;
    }
    Some(DecodedManifestTexture { width: width as usize, height: height as usize, pixels, format: TextureFormat::Rgb565 })
}

// ---------------------------------------------------------------- .tga

/// An uncompressed 16-bit true-colour TGA whose payload covers its size.
pub open spec fn tga_valid(d: Seq<u8>) -> bool {
    &&& d.len() >= 18
    &&& d[2] == 2
    &&& d[16] == 16
    &&& le16_at(d, 12) > 0
    &&& le16_at(d, 14) > 0
    &&& d.len() >= 18 + le16_at(d, 12) * le16_at(d, 14) * 2
}

/// Texel `(x, y)` of a valid TGA: rows are read bottom-up unless the
/// descriptor's top-origin bit (0x20) is set, in which case they are
/// mirrored.
pub open spec fn tga_pixel(d: Seq<u8>, x: int, y: int) -> Rgba8 {
    let w = le16_at(d, 12);
    let h = le16_at(d, 14);
    let top = (d[17] / 32) % 2 == 1;
    let sy = if top { h - 1 - y } else { y };
    expand16_spec(le16_at(d, 18 + (sy * w + x) * 2), false)
}

/// `t` is the decoding of the valid TGA file `d`.
pub open spec fn tga_decodes_to(d: Seq<u8>, t: DecodedManifestTexture) -> bool {
    &&& t.width == le16_at(d, 12)
    &&& t.height == le16_at(d, 14)
    &&& t.format == TextureFormat::Rgba8888
    &&& t.pixels@.len() == t.width * t.height
    &&& forall|i: int| 0 <= i < t.width * t.height
        ==> #[trigger] t.pixels@[i] == tga_pixel(d, i % (t.width as int), i / (t.width as int))
}

/// Decode an uncompressed 16-bit TGA with its magenta colour key.
pub fn decode_manifest_tga(data: &[u8]) -> (res: Option<DecodedManifestTexture>)
    ensures
        res is Some <==> tga_valid(data@),
        res matches Some(t) ==> tga_decodes_to(data@, t),
{
    assert(data@.len() == data.len());
    if data.len() < 18 || data[2] != 2 || data[16] != 16 {
        return None;
    }
    let width = read_le16(data, 12) as usize;
    let height = read_le16(data, 14) as usize;
    let top = (data[17] / 32) % 2 == 1;
    assert(width * height <= 65535 * 65535) by (nonlinear_arith)
        requires width <= 65535, height <= 65535;
    if width == 0 || height == 0 || (data.len() as u64) < 18 + (width as u64) * (height as u64) * 2 {
        return None;
    }
    let count = width * height;
    let mut pixels: Vec<Rgba8> = Vec::new();
    let mut i: usize = 0;
    while i < count
        invariant
            data@.len() == data.len(),
            tga_valid(data@),
            width == le16_at(data@, 12),
            height == le16_at(data@, 14),
            width > 0,
            count == width * height,
            count <= 65535 * 65535,
            top == ((data@[17] / 32) % 2 == 1),
            i <= count,
            pixels@.len() == i,
            forall|j: int| 0 <= j < i ==> #[trigger] pixels@[j] == tga_pixel(data@, j % (width as int), j / (width as int)),
        decreases count - i,
    {
        let x = i % width;
        let y = i / width;
        assert(y < height) by (nonlinear_arith)
            requires y == i / width, i < width * height, width > 0;
        let source_y = if top { height - 1 - y } else { y };
        assert(source_y * width + x < width * height) by (nonlinear_arith)
            requires source_y < height, x < width;
        let offset = 18 + (source_y * width + x) * 2;
        let v = read_le16(data, offset);
        pixels.push(expand16(v, false));
        i += 1;
    }
    Some(DecodedManifestTexture { width, height, pixels, format: TextureFormat::Rgba8888 })
}

// ---------------------------------------------------------------- raw RGB565

/// `r` is the integer square root of `n`.
pub open spec fn is_isqrt(n: int, r: int) -> bool {
    0 <= r && r * r <= n < (r + 1) * (r + 1)
}

proof fn lemma_isqrt_unique(n: int, r: int, s: int)
    requires
        is_isqrt(n, r),
        is_isqrt(n, s),
    ensures
        r == s,
{
    if r < s {
        assert((r + 1) * (r + 1) <= s * s) by (nonlinear_arith)
            requires 0 <= r, r + 1 <= s;
    } else if s < r {
        assert((s + 1) * (s + 1) <= r * r) by (nonlinear_arith)
            requires 0 <= s, s + 1 <= r;
    }
}

/// The integer square root of `n`.
pub open spec fn isqrt(n: int) -> int {
    choose|r: int| is_isqrt(n, r)
}

/// Integer square root by bisection.
fn isqrt_u64(n: u64) -> (r: u64)
    ensures
        is_isqrt(n as int, r as int),
        r == isqrt(n as int),
{
    let mut lo: u64 = 0;
    let mut hi: u64 = 0x1_0000_0000;
    assert(hi * hi > n) by (nonlinear_arith)
        requires hi == 0x1_0000_0000, n <= u64::MAX;
    while hi - lo > 1
        invariant
            lo < hi <= 0x1_0000_0000,
            lo * lo <= n,
            hi * hi > n,
        decreases hi - lo,
    {
        let mid = lo + (hi - lo) / 2;
        assert(mid * mid <= 0xffff_ffff * 0xffff_ffff) by (nonlinear_arith)
            requires mid < 0x1_0000_0000;
        if mid * mid <= n {
            lo = mid;
        } else {
            hi = mid;
        }
    }
    assert(hi == lo + 1);
    proof {
        assert(is_isqrt(n as int, lo as int));
        let c = choose|r: int| is_isqrt(n as int, r);
        assert(is_isqrt(n as int, c));
        lemma_isqrt_unique(n as int, lo as int, c);
    }
    lo
}

/// Dimensions of a headerless RGB565 resource of `count` texels: a square
/// when `count` is a perfect square, otherwise the 2:1 rectangle
/// `2s x s/2` (s the integer square root) when that covers `count` exactly.
pub open spec fn raw_rgb565_dims(count: int) -> Option<(int, int)> {
    let side = isqrt(count);
    if side * side == count {
        Some((side, side))
    } else if count / 2 > 0 && (count / 2) * 2 == count && side > 0 && (side * 2) * (side / 2) == count {
        Some((side * 2, side / 2))
    } else {
        None
    }
}

/// A headerless RGB565 resource: an even, non-zero byte count whose texel
/// count has a square or 2:1 shape.
pub open spec fn raw_rgb565_valid(d: Seq<u8>) -> bool {
    d.len() % 2 == 0 && d.len() / 2 > 0 && raw_rgb565_dims((d.len() / 2) as int) is Some
}

/// `t` is the decoding of the headerless RGB565 resource `d`.
pub open spec fn raw_rgb565_decodes_to(d: Seq<u8>, t: DecodedManifestTexture) -> bool {
    &&& raw_rgb565_dims((d.len() / 2) as int) == Some((t.width as int, t.height as int))
    &&& t.format == TextureFormat::Rgb565
    &&& t.pixels@.len() == t.width * t.height
    &&& forall|i: int| 0 <= i < t.width * t.height ==> #[trigger] t.pixels@[i]
        == expand16_spec(le16_at(d, 2 * i), true)
}

/// Decode a headerless RGB565 resource whose dimensions follow from its size.
pub fn decode_manifest_raw_rgb565(data: &[u8]) -> (res: Option<DecodedManifestTexture>)
    ensures
        res is Some <==> raw_rgb565_valid(data@),
        res matches Some(t) ==> raw_rgb565_decodes_to(data@, t),
{
    assert(data@.len() == data.len());
    let pixels_count = data.len() / 2;
    if data.len() % 2 != 0 || pixels_count == 0 {
        return None;
    }
    let side64 = isqrt_u64(pixels_count as u64);
    assert(side64 <= pixels_count) by (nonlinear_arith)
        requires side64 * side64 <= pixels_count, pixels_count >= 1, side64 >= 0;
    let side = side64 as usize;
    assert((side * 2) * (side / 2) <= side * side) by (nonlinear_arith)
        requires side >= 0;
    let (width, height) = if side * side == pixels_count {
        (side, side)
    } else if pixels_count / 2 > 0 && (pixels_count / 2) * 2 == pixels_count && side > 0
        && (side * 2) * (side / 2) == pixels_count {
        (side * 2, side / 2)
    } else {
        return None;
    };
    assert(width * height == pixels_count);
    let count = width * height;
    let mut pixels: Vec<Rgba8> = Vec::new();
    let mut i: usize = 0;
    while i < count
        invariant
            data@.len() == data.len(),
            count == pixels_count,
            data@.len() == 2 * pixels_count,
            i <= count,
            pixels@.len() == i,
            forall|j: int| 0 <= j < i ==> #[trigger] pixels@[j] == expand16_spec(le16_at(data@, 2 * j), true),
        decreases count - i,
    {
        let v = read_le16(data, 2 * i);
        pixels.push(expand16(v, true));
        i += 1;
    }
    Some(DecodedManifestTexture { width, height, pixels, format: TextureFormat::Rgb565 })
}

// ---------------------------------------------------------------- .pix / .bmp

/// The header-derived layout of a Windows BMP that the decoder accepts.
pub struct BmpLayout {
    pub data_offset: int,
    pub dib_size: int,
    pub width: int,
    pub height: int,
    pub top_down: bool,
    pub bits_per_pixel: int,
    pub masks: (u32, u32, u32, u32),
    pub palette_entries: int,
    pub palette_offset: int,
    pub alpha_ramp: bool,
    pub row_stride: int,
}

/// Two's-complement reading of a 32-bit word.
pub open spec fn as_i32(v: int) -> int {
    if v >= 0x8000_0000 { v - 0x1_0000_0000 } else { v }
}

/// Channel masks: BI_BITFIELDS reads them after the 40-byte header (the
/// alpha mask only when present); BI_RGB uses the standard masks for 32 and
/// 16 bits and none for 24 and 8 bits; anything else is unsupported.
pub open spec fn bmp_masks(d: Seq<u8>, compression: int, bpp: int) -> Option<(u32, u32, u32, u32)> {
    if compression == 3 {
        if d.len() >= 66 {
            Some((le32(d, 54) as u32, le32(d, 58) as u32, le32(d, 62) as u32,
                (if d.len() >= 70 { le32(d, 66) } else { 0 }) as u32))
        } else {
            None
        }
    } else if compression == 0 && bpp == 32 {
        Some((0x00ff_0000u32, 0x0000_ff00u32, 0x0000_00ffu32, 0xff00_0000u32))
    } else if compression == 0 && bpp == 16 {
        Some((0x7c00u32, 0x03e0u32, 0x001fu32, 0x8000u32))
    } else if compression == 0 && (bpp == 24 || bpp == 8) {
        Some((0u32, 0u32, 0u32, 0u32))
    } else {
        None
    }
}

/// Palette entry `index` is a grey ramp step: B == G == R == index, A == 0.
pub open spec fn ramp_entry(d: Seq<u8>, offset: int, index: int) -> bool {
    &&& offset + 4 <= d.len()
    &&& d[offset] == d[offset + 1]
    &&& d[offset + 1] == d[offset + 2]
    &&& d[offset] == index
    &&& d[offset + 3] == 0
}

/// An 8-bit BMP whose whole palette is the identity grey ramp with zero
/// alpha bytes: the index then means coverage.
pub open spec fn bmp_alpha_ramp(d: Seq<u8>, bpp: int, entries: int, palette_offset: int) -> bool {
    &&& bpp == 8
    &&& entries >= 2
    &&& forall|i: int| 0 <= i < entries ==> #[trigger] ramp_entry(d, palette_offset + i * 4, i)
}

pub open spec fn div_ceil(a: int, b: int) -> int {
    (a + b - 1) / b
}

/// The layout of `d`, or `None` where the decoder refuses the header.
pub open spec fn bmp_layout(d: Seq<u8>) -> Option<BmpLayout> {
    if d.len() < 54 || d[0] != 66 || d[1] != 77 {
        None
    } else {
        let data_offset = le32(d, 10);
        let dib = le32(d, 14);
        let raw_w = as_i32(le32(d, 18));
        let raw_h = as_i32(le32(d, 22));
        let bpp = le16_at(d, 28);
        let compression = le32(d, 30);
        let width = raw_w;
        let height = if raw_h < 0 { -raw_h } else { raw_h };
        if dib < 40 || raw_w <= 0 || raw_h == 0 || width > 4096 || height > 4096 {
            None
        } else {
            match bmp_masks(d, compression, bpp) {
                None => None,
                Some(masks) => {
                    let entries = if bpp <= 8 {
                        if le32(d, 46) == 0 { vstd::arithmetic::power2::pow2(bpp as nat) as int } else { le32(d, 46) }
                    } else {
                        0
                    };
                    let palette_offset = 14 + dib;
                    let row_stride = div_ceil(div_ceil(width * bpp, 8), 4) * 4;
                    if data_offset + row_stride * height > d.len() {
                        None
                    } else {
                        Some(BmpLayout {
                            data_offset,
                            dib_size: dib,
                            width,
                            height,
                            top_down: raw_h < 0,
                            bits_per_pixel: bpp,
                            masks,
                            palette_entries: entries,
                            palette_offset,
                            alpha_ramp: bmp_alpha_ramp(d, bpp, entries, palette_offset),
                            row_stride,
                        })
                    }
                },
            }
        }
    }
}

/// Shift `v` right by the number of trailing zero bits of `mask`.
pub open spec fn align_to_mask(mask: nat, v: nat) -> nat
    decreases mask,
{
    if mask == 0 || mask % 2 == 1 {
        v
    } else {
        align_to_mask(mask / 2, v / 2)
    }
}

/// Number of set bits.
pub open spec fn popcount(m: nat) -> nat
    decreases m,
{
    if m == 0 {
        0
    } else {
        m % 2 + popcount(m / 2)
    }
}

/// `2^k - 1`.
pub open spec fn ones(k: nat) -> nat
    decreases k,
{
    if k == 0 {
        0
    } else {
        2 * ones((k - 1) as nat) + 1
    }
}

/// A masked channel scaled to a byte: an absent mask reads as 255, an 8-bit
/// field is taken as is, and other widths are rescaled with rounding in
/// wrapping 32-bit arithmetic.
pub open spec fn bmp_channel(value: u32, mask: u32) -> u8 {
    if mask == 0 {
        255
    } else {
        let sample = align_to_mask(mask as nat, (value & mask) as nat);
        let bits = popcount(mask as nat);
        let max = ones(bits);
        if bits == 8 {
            sample as u8
        } else {
            let w = vstd::wrapping::u32_specs::wrapping_add(
                vstd::wrapping::u32_specs::wrapping_mul(sample as u32, 255u32),
                (max / 2) as u32,
            );
            (w / (max as u32)) as u8
        }
    }
}

/// The colour of displayed texel `(x, y)`; rows are stored bottom-up unless
/// the height is negative.
pub open spec fn bmp_pixel(d: Seq<u8>, l: BmpLayout, x: int, y: int) -> Rgba8 {
    let sy = if l.top_down { y } else { l.height - 1 - y };
    let row = l.data_offset + sy * l.row_stride;
    if l.bits_per_pixel == 8 {
        let index = d[row + x] as int;
        if l.alpha_ramp {
            Rgba8 { r: 255, g: 255, b: 255, a: index as u8 }
        } else {
            let off = l.palette_offset + index * 4;
            if off + 4 <= d.len() {
                Rgba8 { r: d[off + 2], g: d[off + 1], b: d[off], a: 255 }
            } else {
                Rgba8 { r: 0, g: 0, b: 0, a: 0 }
            }
        }
    } else if l.bits_per_pixel == 16 {
        let v = le16_at(d, row + x * 2) as u32;
        Rgba8 { r: bmp_channel(v, l.masks.0), g: bmp_channel(v, l.masks.1), b: bmp_channel(v, l.masks.2), a: bmp_channel(v, l.masks.3) }
    } else if l.bits_per_pixel == 24 {
        Rgba8 { r: d[row + x * 3 + 2], g: d[row + x * 3 + 1], b: d[row + x * 3], a: 255 }
    } else {
        let v = le32(d, row + x * 4) as u32;
        Rgba8 { r: bmp_channel(v, l.masks.0), g: bmp_channel(v, l.masks.1), b: bmp_channel(v, l.masks.2), a: bmp_channel(v, l.masks.3) }
    }
}

/// BMP stores colours blue first: a 24-bit texel is the bytes B, G, R of
/// its row slot and is opaque, and a palette entry is B, G, R, reserved.
pub proof fn lemma_bmp_bgr_order(d: Seq<u8>, l: BmpLayout, x: int, y: int)
    ensures
        ({
            let sy = if l.top_down { y } else { l.height - 1 - y };
            let row = l.data_offset + sy * l.row_stride;
            &&& l.bits_per_pixel == 24 ==> bmp_pixel(d, l, x, y) == Rgba8 {
                r: d[row + 3 * x + 2], g: d[row + 3 * x + 1], b: d[row + 3 * x], a: 255,
            }
            &&& (l.bits_per_pixel == 8 && !l.alpha_ramp && l.palette_offset + 4 * d[row + x] + 4 <= d.len())
                ==> bmp_pixel(d, l, x, y) == Rgba8 {
                    r: d[l.palette_offset + 4 * d[row + x] + 2],
                    g: d[l.palette_offset + 4 * d[row + x] + 1],
                    b: d[l.palette_offset + 4 * d[row + x]],
                    a: 255,
                }
        }),
{
}

proof fn lemma_align_byte_mask(k: nat, v: nat)
    requires
        k <= 24,
    ensures
        align_to_mask(0xff * vstd::arithmetic::power2::pow2(k), v) == v / vstd::arithmetic::power2::pow2(k),
        popcount(0xff * vstd::arithmetic::power2::pow2(k)) == 8,
    decreases k,
{
    vstd::arithmetic::power2::lemma_pow2_pos(k);
    if k == 0 {
        vstd::arithmetic::power2::lemma2_to64();
        reveal_with_fuel(popcount, 9);
    } else {
        let k1 = (k - 1) as nat;
        vstd::arithmetic::power2::lemma_pow2_adds(k1, 1);
        vstd::arithmetic::power2::lemma2_to64();
        vstd::arithmetic::power2::lemma_pow2_pos(k1);
        let p1 = vstd::arithmetic::power2::pow2(k1);
        let m = 0xff * vstd::arithmetic::power2::pow2(k);
        assert(m == 2 * (0xff * p1)) by (nonlinear_arith)
            requires m == 0xff * vstd::arithmetic::power2::pow2(k), vstd::arithmetic::power2::pow2(k) == p1 * 2;
        assert(m % 2 == 0 && m / 2 == 0xff * p1 && m > 0) by (nonlinear_arith)
            requires m == 2 * (0xff * p1), p1 > 0;
        lemma_align_byte_mask(k1, v / 2);
        vstd::arithmetic::div_mod::lemma_div_denominator(v as int, 2, p1 as int);
        assert(v / 2 / p1 == v / vstd::arithmetic::power2::pow2(k));
    }
}

/// A whole-byte channel mask reads that byte of the texel word: with the
/// masks 0x00ff0000, 0x0000ff00, 0x000000ff and 0xff000000 the channel is
/// bits 16..23, 8..15, 0..7 and 24..31 of the value. A zero mask reads as
/// opaque 255.
pub proof fn lemma_bmp_byte_masks(v: u32)
    ensures
        bmp_channel(v, 0x00ff_0000) == ((v >> 16u32) & 0xff) as u8,
        bmp_channel(v, 0x0000_ff00) == ((v >> 8u32) & 0xff) as u8,
        bmp_channel(v, 0x0000_00ff) == (v & 0xff) as u8,
        bmp_channel(v, 0xff00_0000) == ((v >> 24u32) & 0xff) as u8,
        bmp_channel(v, 0) == 255,
{
    vstd::arithmetic::power2::lemma2_to64();
    lemma_align_byte_mask(0, (v & 0x0000_00ff) as nat);
    lemma_align_byte_mask(8, (v & 0x0000_ff00) as nat);
    lemma_align_byte_mask(16, (v & 0x00ff_0000) as nat);
    lemma_align_byte_mask(24, (v & 0xff00_0000) as nat);
    assert((v & 0x00ff_0000) / 0x1_0000 == (v >> 16u32) & 0xff) by (bit_vector);
    assert((v & 0x0000_ff00) / 0x100 == (v >> 8u32) & 0xff) by (bit_vector);
    assert((v & 0xff00_0000) / 0x100_0000 == (v >> 24u32) & 0xff) by (bit_vector);
    assert(v & 0x0000_00ff < 256) by (bit_vector);
}

/// Depths with a texel decoding.
pub open spec fn bmp_depth_supported(bpp: int) -> bool {
    bpp == 8 || bpp == 16 || bpp == 24 || bpp == 32
}

proof fn lemma_ones_bound(m: nat, k: nat)
    requires
        m <= ones(k),
    ensures
        popcount(m) <= k,
    decreases k,
{
    if k > 0 && m > 0 {
        assert(m / 2 <= ones((k - 1) as nat));
        lemma_ones_bound(m / 2, (k - 1) as nat);
    }
}

proof fn lemma_ones_monotone(a: nat, b: nat)
    requires
        a <= b,
    ensures
        ones(a) <= ones(b),
    decreases b,
{
    if a < b {
        lemma_ones_monotone(a, (b - 1) as nat);
    }
}

proof fn lemma_ones_32()
    ensures
        ones(32) == 0xffff_ffff,
{
    reveal_with_fuel(ones, 33);
}

proof fn lemma_align_le(mask: nat, v: nat)
    ensures
        align_to_mask(mask, v) <= v,
    decreases mask,
{
    if !(mask == 0 || mask % 2 == 1) {
        lemma_align_le(mask / 2, v / 2);
    }
}

/// Scale the masked field of `value` to a byte; see `bmp_channel`.
fn channel(value: u32, mask: u32) -> (c: u8)
    ensures
        c == bmp_channel(value, mask),
{
    if mask == 0 {
        return 255;
    }
    let masked = value & mask;
    let mut m = mask;
    let mut s = masked;
    while m % 2 == 0
        invariant
            m != 0,
            align_to_mask(mask as nat, masked as nat) == align_to_mask(m as nat, s as nat),
            popcount(mask as nat) == popcount(m as nat),
            s <= masked,
        decreases m,
    {
        m = m / 2;
        s = s / 2;
    }
    let sample = s;
    // count the remaining bits, building 2^bits - 1 alongside
    let mut bits: u32 = 0;
    let mut max: u64 = 0;
    let mut r = m;
    proof {
        lemma_ones_32();
        lemma_ones_bound(mask as nat, 32);
    }
    while r > 0
        invariant
            popcount(mask as nat) == bits + popcount(r as nat),
            popcount(mask as nat) <= 32,
            max == ones(bits as nat),
            ones(32) == 0xffff_ffff,
        decreases r,
    {
        if r % 2 == 1 {
            proof {
                lemma_ones_monotone((bits + 1) as nat, 32);
            }
            bits = bits + 1;
            max = max * 2 + 1;
        }
        r = r / 2;
    }
    proof {
        lemma_ones_monotone(bits as nat, 32);
        lemma_align_le(m as nat, s as nat);
    }
    assert(bits >= 1) by {
        assert(popcount(m as nat) >= 1);
    }
    let max32 = max as u32;
    if bits == 8 {
        sample as u8
    } else {
        (sample.wrapping_mul(255).wrapping_add(max32 / 2) / max32) as u8
    }
}

/// Decode one displayed texel given the row's byte offset.
fn bmp_texel(data: &[u8], Ghost(l): Ghost<BmpLayout>, bpp: u64, row: u64, x: u64, y: Ghost<int>, alpha_ramp: bool, palette_offset: u64, masks: (u32, u32, u32, u32)) -> (px: Rgba8)
    requires
        data@.len() == data.len(),
        bmp_depth_supported(l.bits_per_pixel),
        l.bits_per_pixel == bpp,
        l.alpha_ramp == alpha_ramp,
        l.palette_offset == palette_offset,
        l.masks == masks,
        row == l.data_offset + (if l.top_down { y@ } else { l.height - 1 - y@ }) * l.row_stride,
        row + (x + 1) * (l.bits_per_pixel / 8) <= data@.len(),
        palette_offset <= 0x1_0000_0100,
    ensures
        px == bmp_pixel(data@, l, x as int, y@),
{
    if bpp == 8 {
        let index = data[(row + x) as usize];
        if alpha_ramp {
            Rgba8 { r: 255, g: 255, b: 255, a: index }
        } else {
            let off = palette_offset + (index as u64) * 4;
            if off + 4 <= data.len() as u64 {
                let o = off as usize;
                Rgba8 { r: data[o + 2], g: data[o + 1], b: data[o], a: 255 }
            } else {
                Rgba8 { r: 0, g: 0, b: 0, a: 0 }
            }
        }
    } else if bpp == 16 {
        let v = read_le16(data, (row + x * 2) as usize) as u32;
        Rgba8 { r: channel(v, masks.0), g: channel(v, masks.1), b: channel(v, masks.2), a: channel(v, masks.3) }
    } else if bpp == 24 {
        let o = (row + x * 3) as usize;
        Rgba8 { r: data[o + 2], g: data[o + 1], b: data[o], a: 255 }
    } else {
        let v = read_le32(data, (row + x * 4) as usize);
        Rgba8 { r: channel(v, masks.0), g: channel(v, masks.1), b: channel(v, masks.2), a: channel(v, masks.3) }
    }
}

/// `2^k` for the palette depths.
fn small_pow2(k: u64) -> (p: u64)
    requires
        k <= 8,
    ensures
        p == vstd::arithmetic::power2::pow2(k as nat),
        1 <= p <= 256,
{
    proof {
        vstd::arithmetic::power2::lemma2_to64();
    }
    if k == 0 { 1 } else if k == 1 { 2 } else if k == 2 { 4 } else if k == 3 { 8 } else if k == 4 { 16 }
    else if k == 5 { 32 } else if k == 6 { 64 } else if k == 7 { 128 } else { 256 }
}

/// Whether the `entries` palette entries at `palette_offset` form the
/// identity grey ramp with zero alpha bytes.
fn palette_is_alpha_ramp(data: &[u8], palette_offset: u64, entries: u64) -> (b: bool)
    requires
        entries <= 0xffff_ffff,
        palette_offset <= 0x1_0000_000d,
    ensures
        b == forall|j: int| 0 <= j < entries ==> #[trigger] ramp_entry(data@, palette_offset + j * 4, j),
{
    assert(data@.len() == data.len());
    let mut idx: u64 = 0;
    while idx < entries
        invariant
            data@.len() == data.len(),
            entries <= 0xffff_ffff,
            palette_offset <= 0x1_0000_000d,
            idx <= entries,
            forall|j: int| 0 <= j < idx ==> #[trigger] ramp_entry(data@, palette_offset + j * 4, j),
        decreases entries - idx,
    {
        let off = palette_offset + idx * 4;
        if off + 4 > data.len() as u64 {
            assert(!ramp_entry(data@, palette_offset + idx * 4, idx as int));
            return false;
        }
        let o = off as usize;
        if !(data[o] == data[o + 1] && data[o + 1] == data[o + 2] && data[o] as u64 == idx && data[o + 3] == 0) {
            assert(!ramp_entry(data@, palette_offset + idx * 4, idx as int));
            return false;
        }
        idx += 1;
    }
    true
}

/// Format a decoded BMP is reported as.
pub open spec fn bmp_format(l: BmpLayout) -> TextureFormat {
    if l.alpha_ramp {
        TextureFormat::A8
    } else if l.bits_per_pixel == 16 {
        TextureFormat::Rgba5551
    } else {
        TextureFormat::Rgba8888
    }
}

/// A BMP the decoder accepts.
pub open spec fn bmp_valid(d: Seq<u8>) -> bool {
    bmp_layout(d) matches Some(l) && bmp_depth_supported(l.bits_per_pixel)
}

/// `t` is the decoding of the accepted BMP `d`.
pub open spec fn bmp_decodes_to(d: Seq<u8>, t: DecodedManifestTexture) -> bool {
    bmp_layout(d) matches Some(l) && {
        &&& t.width == l.width
        &&& t.height == l.height
        &&& t.format == bmp_format(l)
        &&& t.pixels@.len() == t.width * t.height
        &&& forall|i: int| 0 <= i < t.width * t.height ==> #[trigger] t.pixels@[i]
            == bmp_pixel(d, l, i % (t.width as int), i / (t.width as int))
    }
}

/// Decode a Windows BMP (the `.pix` resources): 8-bit palettised (or
/// coverage ramps), 16/32-bit masked, and 24-bit BGR.
pub fn decode_manifest_bmp(data: &[u8]) -> (res: Option<DecodedManifestTexture>)
    ensures
        res is Some <==> bmp_valid(data@),
        res matches Some(t) ==> bmp_decodes_to(data@, t),
{
    assert(data@.len() == data.len());
    if data.len() < 54 || data[0] != 66 || data[1] != 77 {
        return None;
    }
    let data_offset = read_le32(data, 10) as u64;
    let dib_size = read_le32(data, 14) as u64;
    let w32 = read_le32(data, 18);
    let h32 = read_le32(data, 22);
    let bpp = read_le16(data, 28) as u64;
    let compression = read_le32(data, 30);
    if dib_size < 40 || w32 == 0 || w32 >= 0x8000_0000 || h32 == 0 {
        return None;
    }
    let width = w32 as u64;
    let top_down = h32 >= 0x8000_0000;
    let height: u64 = if top_down { 0x1_0000_0000u64 - h32 as u64 } else { h32 as u64 };
    if width > 4096 || height > 4096 {
        return None;
    }
    let masks: (u32, u32, u32, u32) = if compression == 3 {
        if data.len() < 66 {
            return None;
        }
        let alpha = if data.len() >= 70 { read_le32(data, 66) } else { 0 };
        (read_le32(data, 54), read_le32(data, 58), read_le32(data, 62), alpha)
    } else if compression == 0 && bpp == 32 {
        (0x00ff_0000, 0x0000_ff00, 0x0000_00ff, 0xff00_0000)
    } else if compression == 0 && bpp == 16 {
        (0x7c00, 0x03e0, 0x001f, 0x8000)
    } else if compression == 0 && (bpp == 24 || bpp == 8) {
        (0, 0, 0, 0)
    } else {
        return None;
    };
    let entries: u64 = if bpp <= 8 {
        let used = read_le32(data, 46) as u64;
        if used == 0 { small_pow2(bpp) } else { used }
    } else {
        0
    };
    assert(entries <= 0xffff_ffff);
    let palette_offset = 14 + dib_size;
    let alpha_ramp = bpp == 8 && entries >= 2 && palette_is_alpha_ramp(data, palette_offset, entries);
    assert(width * bpp <= 4096 * 65535) by (nonlinear_arith)
        requires width <= 4096, bpp <= 65535;
    let row_bytes = (width * bpp + 7) / 8;
    let row_stride = (row_bytes + 3) / 4 * 4;
    assert(row_stride * height <= 0x4000_0000 * 4096) by (nonlinear_arith)
        requires row_stride <= 0x4000_0000, height <= 4096;
    if data_offset + row_stride * height > data.len() as u64 {
        return None;
    }
    let ghost layout = bmp_layout(data@);
    proof {
        assert(layout is Some);
    }
    if !(bpp == 8 || bpp == 16 || bpp == 24 || bpp == 32) {
        return None;
    }
    assert(width * height <= 4096 * 4096) by (nonlinear_arith)
        requires width <= 4096, height <= 4096;
    let count = (width * height) as usize;
    let w = width as usize;
    let mut pixels: Vec<Rgba8> = Vec::new();
    let mut i: usize = 0;
    while i < count
        invariant
            data@.len() == data.len(),
            layout == bmp_layout(data@),
            layout matches Some(l) && {
                &&& l.width == width && l.height == height && l.top_down == top_down
                &&& l.bits_per_pixel == bpp && l.row_stride == row_stride
                &&& l.data_offset == data_offset && l.palette_offset == palette_offset
                &&& l.alpha_ramp == alpha_ramp && l.masks == masks
            },
            bmp_depth_supported(bpp as int),
            1 <= width <= 4096,
            1 <= height <= 4096,
            w == width,
            count == width * height,
            palette_offset <= 0x1_0000_000d,
            data_offset <= 0xffff_ffff,
            row_stride <= 0x4000_0000,
            row_stride == div_ceil(div_ceil(width * bpp, 8), 4) * 4,
            data_offset + row_stride * height <= data@.len(),
            i <= count,
            pixels@.len() == i,
            forall|j: int| 0 <= j < i ==> #[trigger] pixels@[j] == bmp_pixel(data@, layout->0, j % (w as int), j / (w as int)),
        decreases count - i,
    {
        let x = (i % w) as u64;
        let y = (i / w) as u64;
        assert(y < height) by (nonlinear_arith)
            requires y == i / w, i < w * height, w > 0;
        let source_y = if top_down { y } else { height - 1 - y };
        assert((source_y + 1) * row_stride <= height * row_stride) by (nonlinear_arith)
            requires source_y < height, row_stride >= 0;
        assert((x + 1) * (bpp / 8) <= row_stride) by (nonlinear_arith)
            requires
                x < width,
                bpp == 8 || bpp == 16 || bpp == 24 || bpp == 32,
                row_stride == ((width * bpp + 7) / 8 + 3) / 4 * 4;
        assert(source_y * row_stride <= 4096 * 0x4000_0000) by (nonlinear_arith)
            requires source_y < height, height <= 4096, row_stride <= 0x4000_0000, row_stride >= 0;
        let row = data_offset + source_y * row_stride;
        assert(row + (x + 1) * (bpp / 8) <= data@.len()) by (nonlinear_arith)
            requires
                row == data_offset + source_y * row_stride,
                (x + 1) * (bpp / 8) <= row_stride,
                (source_y + 1) * row_stride <= height * row_stride,
                data_offset + row_stride * height <= data@.len();
        let px = bmp_texel(data, Ghost(layout->0), bpp, row, x, Ghost(y as int), alpha_ramp, palette_offset, masks);
        pixels.push(px);
        i += 1;
    }
    let format = if alpha_ramp {
        TextureFormat::A8
    } else if bpp == 16 {
        TextureFormat::Rgba5551
    } else {
        TextureFormat::Rgba8888
    };
    Some(DecodedManifestTexture { width: w, height: height as usize, pixels, format })
}

/// The resource decoders chosen by file extension.
#[derive(Debug, Copy, Clone, PartialEq, Eq, Structural)]
pub enum ManifestImageKind {
    Tga,
    Ipd,
    RawRgb565,
    Bmp,
}

/// `c` equals the lowercase ASCII letter `lower` ignoring ASCII case.
pub open spec fn char_ci_eq(c: char, lower: char) -> bool {
    c == lower || c as u32 + 32 == lower as u32
}

/// `ext` spells the lowercase word `word` ignoring ASCII case.
pub open spec fn ext_is(ext: Seq<char>, word: Seq<char>) -> bool {
    ext.len() == word.len() && forall|i: int| 0 <= i < ext.len() ==> #[trigger] char_ci_eq(ext[i], word[i])
}

/// Decoder for a file extension: `tga`, `ipd`, `bin` (headerless RGB565)
/// and `pix`/`bmp`, compared ignoring ASCII case; anything else is ignored.
pub open spec fn manifest_kind_spec(ext: Seq<char>) -> Option<ManifestImageKind> {
    if ext_is(ext, seq!['t', 'g', 'a']) {
        Some(ManifestImageKind::Tga)
    } else if ext_is(ext, seq!['i', 'p', 'd']) {
        Some(ManifestImageKind::Ipd)
    } else if ext_is(ext, seq!['b', 'i', 'n']) {
        Some(ManifestImageKind::RawRgb565)
    } else if ext_is(ext, seq!['p', 'i', 'x']) || ext_is(ext, seq!['b', 'm', 'p']) {
        Some(ManifestImageKind::Bmp)
    } else {
        None
    }
}

fn ext_eq3(ext: &str, a: char, b: char, c: char) -> (r: bool)
    ensures
        r == ext_is(ext@, seq![a, b, c]),
{
    if ext.unicode_len() != 3 {
        return false;
    }
    let x = ext.get_char(0);
    let y = ext.get_char(1);
    let z = ext.get_char(2);
    let r = (x == a || x as u32 + 32 == a as u32) && (y == b || y as u32 + 32 == b as u32)
        && (z == c || z as u32 + 32 == c as u32);
    proof {
        let w = seq![a, b, c];
        if r {
            assert forall|i: int| 0 <= i < ext@.len() implies #[trigger] char_ci_eq(ext@[i], w[i]) by {
                if i == 0 {} else if i == 1 {} else {}
            }
        } else {
            if char_ci_eq(ext@[0], w[0]) && char_ci_eq(ext@[1], w[1]) {
                assert(!char_ci_eq(ext@[2], w[2]));
            } else if char_ci_eq(ext@[0], w[0]) {
                assert(!char_ci_eq(ext@[1], w[1]));
            }
        }
    }
    r
}

/// Choose the decoder for a file extension; see `manifest_kind_spec`.
pub fn manifest_image_kind(ext: &str) -> (k: Option<ManifestImageKind>)
    ensures
        k == manifest_kind_spec(ext@),
{
    if ext_eq3(ext, 't', 'g', 'a') {
        Some(ManifestImageKind::Tga)
    } else if ext_eq3(ext, 'i', 'p', 'd') {
        Some(ManifestImageKind::Ipd)
    } else if ext_eq3(ext, 'b', 'i', 'n') {
        Some(ManifestImageKind::RawRgb565)
    } else if ext_eq3(ext, 'p', 'i', 'x') || ext_eq3(ext, 'b', 'm', 'p') {
        Some(ManifestImageKind::Bmp)
    } else {
        None
    }
}

/// `t` is the decoding of `d` as a resource of kind `k`.
pub open spec fn manifest_decodes_to(k: ManifestImageKind, d: Seq<u8>, t: DecodedManifestTexture) -> bool {
    match k {
        ManifestImageKind::Tga => tga_decodes_to(d, t),
        ManifestImageKind::Ipd => ipd_decodes_to(d, t),
        ManifestImageKind::RawRgb565 => raw_rgb565_decodes_to(d, t),
        ManifestImageKind::Bmp => bmp_decodes_to(d, t),
    }
}

/// `d` is a file the decoder of kind `k` accepts.
pub open spec fn manifest_valid(k: ManifestImageKind, d: Seq<u8>) -> bool {
    match k {
        ManifestImageKind::Tga => tga_valid(d),
        ManifestImageKind::Ipd => ipd_valid(d),
        ManifestImageKind::RawRgb565 => raw_rgb565_valid(d),
        ManifestImageKind::Bmp => bmp_valid(d),
    }
}

/// Decode one manifest-listed image, choosing the decoder by the file's
/// extension (without the dot). Unknown extensions decode to `None`.
pub fn decode_manifest_texture(extension: &str, data: &[u8]) -> (res: Option<DecodedManifestTexture>)
    ensures
        res is Some <==> (manifest_kind_spec(extension@) matches Some(k) && manifest_valid(k, data@)),
        res matches Some(t) ==> (manifest_kind_spec(extension@) matches Some(k) && manifest_decodes_to(k, data@, t)),
{
    match manifest_image_kind(extension) {
        Some(ManifestImageKind::Tga) => decode_manifest_tga(data),
        Some(ManifestImageKind::Ipd) => decode_manifest_ipd(data),
        Some(ManifestImageKind::RawRgb565) => decode_manifest_raw_rgb565(data),
        Some(ManifestImageKind::Bmp) => decode_manifest_bmp(data),
        None => None,
    }
}

/// The header of a binary PPM: `P6\n{w} {h}\n255\n`.
pub open spec fn ppm_header(width: usize, height: usize) -> Seq<char> {
    "P6\n"@ + crate::text::dec_min(width as nat) + " "@ + crate::text::dec_min(height as nat) + "\n255\n"@
}

/// The R, G, B bytes of every pixel, in order.
pub open spec fn rgb_bytes(fb: Seq<Rgba8>) -> Seq<u8>
    decreases fb.len(),
{
    if fb.len() == 0 {
        Seq::empty()
    } else {
        rgb_bytes(fb.drop_last()) + seq![fb.last().r, fb.last().g, fb.last().b]
    }
}

/// A binary PPM image of `fb` (every pixel of it) declared as
/// `width` x `height`; alpha is dropped.
pub fn ppm_bytes(fb: &[Rgba8], width: usize, height: usize) -> (out: Vec<u8>)
    ensures
        out@ == vstd::utf8::encode_utf8(ppm_header(width, height)) + rgb_bytes(fb@),
{
    proof {
        reveal_strlit("P6\n");
        reveal_strlit(" ");
        reveal_strlit("\n255\n");
    }
    let mut header = String::from_str("P6\n");
    crate::text::push_dec(&mut header, width as u64);
    header.append(" ");
    crate::text::push_dec(&mut header, height as u64);
    header.append("\n255\n");
    let hb = header.as_str().as_bytes();
    let mut out: Vec<u8> = Vec::new();
    let mut k: usize = 0;
    while k < hb.len()
        invariant
            k <= hb@.len(),
            out@ == hb@.take(k as int),
        decreases hb@.len() - k,
    {
        out.push(hb[k]);
        k += 1;
        assert(out@ =~= hb@.take(k as int));
    }
    assert(hb@.take(hb@.len() as int) =~= hb@);
    let ghost head = out@;
    let mut i: usize = 0;
    while i < fb.len()
        invariant
            i <= fb@.len(),
            out@ == head + rgb_bytes(fb@.take(i as int)),
        decreases fb@.len() - i,
    {
        let px = fb[i];
        out.push(px.r);
        out.push(px.g);
        out.push(px.b);
        proof {
            assert(fb@.take(i + 1).drop_last() =~= fb@.take(i as int));
        }
        i += 1;
        assert(out@ =~= head + rgb_bytes(fb@.take(i as int)));
    }
    assert(fb@.take(fb@.len() as int) =~= fb@);
    out
}

/// `u8::is_ascii_whitespace`: space, tab, line feed, form feed, return.
pub open spec fn is_ascii_ws(c: u8) -> bool {
    c == 0x20 || c == 0x09 || c == 0x0a || c == 0x0c || c == 0x0d
}

/// The first position at or after `i` that is not whitespace.
pub open spec fn skip_ws(b: Seq<u8>, i: int) -> int
    decreases b.len() - i,
{
    if 0 <= i < b.len() && is_ascii_ws(b[i]) { skip_ws(b, i + 1) } else { i }
}

/// The first line feed at or after `i` (or the end).
pub open spec fn skip_line(b: Seq<u8>, i: int) -> int
    decreases b.len() - i,
{
    if 0 <= i < b.len() && b[i] != 0x0a { skip_line(b, i + 1) } else { i }
}

/// The end of the token starting at `i`.
pub open spec fn token_end(b: Seq<u8>, i: int) -> int
    decreases b.len() - i,
{
    if 0 <= i < b.len() && !is_ascii_ws(b[i]) { token_end(b, i + 1) } else { i }
}

/// A token read as a `u32` (`str::parse`): its bytes as characters.
pub open spec fn token_value(tok: Seq<u8>) -> Option<nat> {
    crate::parse::parse_uint(tok.map_values(|c: u8| c as char), 10, 0xffff_ffff)
}

/// The scanners stay within the data and never move backwards.
pub proof fn lemma_scan_bounds(b: Seq<u8>, i: int)
    requires
        0 <= i <= b.len(),
    ensures
        i <= skip_ws(b, i) <= b.len(),
        i <= skip_line(b, i) <= b.len(),
        i <= token_end(b, i) <= b.len(),
    decreases b.len() - i,
{
    if i < b.len() {
        lemma_scan_bounds(b, i + 1);
    }
}

/// The header numbers of a binary PPM from position `i`, after `fields`:
/// whitespace is skipped, `#` comments run to the line end, and after the
/// third number one whitespace byte is consumed. The payload position is
/// returned with the numbers.
pub open spec fn ppm_fields(b: Seq<u8>, i: int, fields: Seq<nat>) -> Option<(Seq<nat>, int)>
    decreases b.len() - i,
{
    if i < 0 || i > b.len() {
        None
    } else {
        let j = skip_ws(b, i);
        proof {
            lemma_scan_bounds(b, i);
        }
        if j < b.len() && b[j] == 0x23 {
            proof {
                lemma_scan_bounds(b, j);
            }
            let k = skip_line(b, j);
            if k > i { ppm_fields(b, k, fields) } else { None }
        } else {
            proof {
                lemma_scan_bounds(b, j);
            }
            let e = token_end(b, j);
            match token_value(b.subrange(j, e)) {
                None => None,
                Some(v) => {
                    let f = fields.push(v);
                    if f.len() >= 3 {
                        Some((f, e + 1))
                    } else if e > i {
                        ppm_fields(b, e, f)
                    } else {
                        None
                    }
                },
            }
        }
    }
}

/// The image of a binary PPM (`P6`), opaque; `None` when the header does
/// not parse or the payload is short.
pub open spec fn ppm_decode(b: Seq<u8>) -> Option<Seq<Rgba8>> {
    if b.len() < 2 || b[0] != 0x50 || b[1] != 0x36 {
        None
    } else {
        match ppm_fields(b, 2, Seq::empty()) {
            None => None,
            Some((f, idx)) => {
                let n = f[0] * f[1];
                if b.len() - idx < n * 3 {
                    None
                } else {
                    Some(Seq::new(n as nat, |p: int| Rgba8 {
                        r: b[idx + 3 * p],
                        g: b[idx + 3 * p + 1],
                        b: b[idx + 3 * p + 2],
                        a: 255,
                    }))
                }
            },
        }
    }
}

fn byte_is_ws(c: u8) -> (r: bool)
    ensures
        r == is_ascii_ws(c),
{
    c == 0x20 || c == 0x09 || c == 0x0a || c == 0x0c || c == 0x0d
}

/// Parse `b[a..e]` as a token value.
fn token_value_at(b: &[u8], a: usize, e: usize) -> (r: Option<u32>)
    requires
        a <= e <= b@.len(),
    ensures
        r matches Some(v) ==> token_value(b@.subrange(a as int, e as int)) == Some(v as nat),
        r is None ==> token_value(b@.subrange(a as int, e as int)) is None,
{
    let mut cs: Vec<char> = Vec::new();
    let mut k = a;
    while k < e
        invariant
            a <= k <= e <= b@.len(),
            cs@ == b@.subrange(a as int, k as int).map_values(|c: u8| c as char),
        decreases e - k,
    {
        cs.push(b[k] as char);
        k += 1;
        assert(cs@ =~= b@.subrange(a as int, k as int).map_values(|c: u8| c as char));
    }
    assert(cs@.subrange(0, cs@.len() as int) =~= cs@);
    match crate::parse::parse_uint_range(cs.as_slice(), 0, cs.len(), 10, 0xffff_ffff) {
        Some(v) => Some(v as u32),
        None => None,
    }
}

/// The three header numbers of a binary PPM (`P6`), and where the third
/// one ends; the payload starts one byte later. `None` when the data is
/// not `P6` or a header token is not a number.
pub fn ppm_p6_fields(bytes: &[u8]) -> (r: Option<(Vec<u32>, usize)>)
    ensures
        !(bytes@.len() >= 2 && bytes@[0] == 0x50 && bytes@[1] == 0x36) ==> r is None,
        bytes@.len() >= 2 && bytes@[0] == 0x50 && bytes@[1] == 0x36 ==> match ppm_fields(bytes@, 2, Seq::empty()) {
            Some((f, idx)) => r matches Some((v, e)) && v@.len() == 3 && v@.map_values(|x: u32| x as nat) == f
                && e + 1 == idx && e <= bytes@.len(),
            None => r is None,
        },
{
    if bytes.len() < 2 || bytes[0] != 0x50 || bytes[1] != 0x36 {
        return None;
    }
    let ghost b = bytes@;
    let mut idx: usize = 2;
    let mut fields: Vec<u32> = Vec::new();
    assert(fields@.map_values(|v: u32| v as nat) =~= Seq::<nat>::empty());
    loop
        invariant_except_break
            fields@.len() < 3,
            ppm_fields(b, 2, Seq::empty()) == ppm_fields(b, idx as int, fields@.map_values(|v: u32| v as nat)),
        invariant
            b == bytes@,
            2 <= idx <= b.len(),
        ensures
            fields@.len() == 3,
            ppm_fields(b, 2, Seq::empty()) == Some((fields@.map_values(|v: u32| v as nat), idx + 1)),
        decreases b.len() - idx,
    {
        let ghost i0 = idx;
        proof {
            lemma_scan_bounds(b, idx as int);
        }
        while idx < bytes.len() && byte_is_ws(bytes[idx])
            invariant
                b == bytes@,
                i0 <= idx <= b.len(),
                skip_ws(b, i0 as int) == skip_ws(b, idx as int),
            decreases b.len() - idx,
        {
            idx += 1;
        }
        if idx < bytes.len() && bytes[idx] == 0x23 {
            let j = idx;
            while idx < bytes.len() && bytes[idx] != 0x0a
                invariant
                    b == bytes@,
                    j <= idx <= b.len(),
                    skip_line(b, j as int) == skip_line(b, idx as int),
                decreases b.len() - idx,
            {
                idx += 1;
            }
            assert(idx > i0);
            continue;
        }
        assert(skip_ws(b, idx as int) == idx as int);
        let start = idx;
        while idx < bytes.len() && !byte_is_ws(bytes[idx])
            invariant
                b == bytes@,
                start <= idx <= b.len(),
                token_end(b, start as int) == token_end(b, idx as int),
            decreases b.len() - idx,
        {
            idx += 1;
        }
        let v = match token_value_at(bytes, start, idx) {
            Some(v) => v,
            None => return None,
        };
        assert(idx > start) by {
            if idx == start {
                assert(b.subrange(start as int, idx as int).map_values(|c: u8| c as char) =~= Seq::<char>::empty());
            }
        }
        assert(token_end(b, idx as int) == idx as int);
        let ghost prev = fields@.map_values(|v: u32| v as nat);
        fields.push(v);
        assert(fields@.map_values(|v: u32| v as nat) =~= prev.push(v as nat));
        if fields.len() >= 3 {
            break;
        }
        assert(idx > i0);
    }
    let ghost f = fields@.map_values(|v: u32| v as nat);
    Some((fields, idx))
}

/// Read a binary PPM (see `ppm_decode`). The payload must be addressable:
/// the header may not end exactly at the end of the data, and the pixel
/// count must fit in memory.
pub fn parse_ppm_p6(bytes: &[u8]) -> (r: Option<Vec<Rgba8>>)
    requires
        bytes@.len() >= 2 && bytes@[0] == 0x50 && bytes@[1] == 0x36 ==> match ppm_fields(bytes@, 2, Seq::empty()) {
            Some((f, idx)) => idx <= bytes@.len() && f[0] * f[1] * 3 <= usize::MAX,
            None => true,
        },
    ensures
        match ppm_decode(bytes@) {
            Some(px) => r matches Some(v) && v@ == px,
            None => r is None,
        },
{
    if bytes.len() < 2 || bytes[0] != 0x50 || bytes[1] != 0x36 {
        return None;
    }
    let (fields, idx) = match ppm_p6_fields(bytes) {
        Some(x) => x,
        None => return None,
    };
    let ghost b = bytes@;
    let ghost f = fields@.map_values(|v: u32| v as nat);
    assert(f[0] == fields@[0] && f[1] == fields@[1]);
    let payload_start = idx + 1;
    let width = fields[0] as usize;
    let height = fields[1] as usize;
    assert(f[0] == width && f[1] == height);
    let n = width * height;
    let need = n * 3;
    if bytes.len() - payload_start < need {
        return None;
    }
    let mut out: Vec<Rgba8> = Vec::new();
    let mut p: usize = 0;
    while p < n
        invariant
            b == bytes@,
            b.len() <= usize::MAX,
            n == width * height,
            payload_start + n * 3 <= b.len(),
            p <= n,
            out@ == Seq::new(p as nat, |q: int| Rgba8 {
                r: b[payload_start + 3 * q],
                g: b[payload_start + 3 * q + 1],
                b: b[payload_start + 3 * q + 2],
                a: 255,
            }),
        decreases n - p,
    {
        let o = payload_start + 3 * p;
        out.push(Rgba8::rgba(bytes[o], bytes[o + 1], bytes[o + 2], 255));
        p += 1;
        assert(out@ =~= Seq::new(p as nat, |q: int| Rgba8 {
            r: b[payload_start + 3 * q],
            g: b[payload_start + 3 * q + 1],
            b: b[payload_start + 3 * q + 2],
            a: 255,
        }));
    }
    Some(out)
}

/// The decimal text of `v` reads back as `v`.
proof fn lemma_dec_reads_back(v: nat)
    ensures
        crate::parse::digits_val(crate::text::dec_min(v), 10) == Some(v),
        crate::text::dec_min(v).len() >= 1,
        forall|k: int| 0 <= k < crate::text::dec_min(v).len() ==> '0' <= #[trigger] crate::text::dec_min(v)[k] <= '9',
    decreases v,
{
    let s = crate::text::dec_min(v);
    let d = crate::text::dec_char(v % 10);
    assert(d as u32 == 48 + v % 10);
    assert(crate::parse::digit_val(d, 10) == Some(v % 10));
    if v < 10 {
        assert(s.drop_last() =~= Seq::<char>::empty());
        assert(s.last() == d);
        assert(crate::parse::digits_val(s.drop_last(), 10) == Some(0nat));
        assert(crate::parse::digits_val(s, 10) == Some(0nat * 10 + v % 10));
    } else {
        lemma_dec_reads_back(v / 10);
        assert(s.drop_last() =~= crate::text::dec_min(v / 10));
        assert(s.last() == d);
        assert(crate::parse::digits_val(s.drop_last(), 10) == Some(v / 10));
        assert(crate::parse::digits_val(s, 10) == Some((v / 10) * 10 + v % 10));
        assert forall|k: int| 0 <= k < s.len() implies '0' <= #[trigger] s[k] <= '9' by {
            if k < s.len() - 1 {
                assert(s[k] == crate::text::dec_min(v / 10)[k]);
            }
        }
    }
}

/// Scanning a token stops at the first whitespace after it.
proof fn lemma_token_end_at(b: Seq<u8>, i: int, e: int)
    requires
        0 <= i <= e <= b.len(),
        forall|k: int| i <= k < e ==> !is_ascii_ws(#[trigger] b[k]),
        e == b.len() || is_ascii_ws(b[e]),
    ensures
        token_end(b, i) == e,
    decreases e - i,
{
    if i < e {
        lemma_token_end_at(b, i + 1, e);
    }
}

/// The bytes of the pixels: three per pixel.
proof fn lemma_rgb_bytes(fb: Seq<Rgba8>)
    ensures
        rgb_bytes(fb).len() == 3 * fb.len(),
        forall|p: int| 0 <= p < fb.len() ==> {
            &&& rgb_bytes(fb)[3 * p] == #[trigger] fb[p].r
            &&& rgb_bytes(fb)[3 * p + 1] == fb[p].g
            &&& rgb_bytes(fb)[3 * p + 2] == fb[p].b
        },
    decreases fb.len(),
{
    if fb.len() > 0 {
        lemma_rgb_bytes(fb.drop_last());
        assert forall|p: int| 0 <= p < fb.len() implies {
            &&& rgb_bytes(fb)[3 * p] == #[trigger] fb[p].r
            &&& rgb_bytes(fb)[3 * p + 1] == fb[p].g
            &&& rgb_bytes(fb)[3 * p + 2] == fb[p].b
        } by {
            if p < fb.len() - 1 {
                assert(fb.drop_last()[p] == fb[p]);
            }
        }
    }
}

/// One header number read at position `i` of `b`, where `b` holds the
/// decimal text of `v` from `i + 1` after one whitespace byte at `i`, and
/// a whitespace byte right after it.
proof fn lemma_read_number(b: Seq<u8>, text: Seq<char>, i: int, v: nat)
    requires
        0 <= i,
        i + 1 + text.len() < b.len(),
        text == crate::text::dec_min(v),
        v <= 0xffff_ffff,
        is_ascii_ws(b[i]),
        is_ascii_ws(b[i + 1 + text.len()]),
        forall|k: int| 0 <= k < text.len() ==> b[i + 1 + k] == #[trigger] text[k] as u8,
    ensures
        skip_ws(b, i) == i + 1,
        token_end(b, i + 1) == i + 1 + text.len(),
        token_value(b.subrange(i + 1, i + 1 + text.len())) == Some(v),
{
    lemma_dec_reads_back(v);
    let j = i + 1;
    let e = j + text.len();
    assert(!is_ascii_ws(b[j])) by {
        assert('0' <= text[0] <= '9');
        assert(b[j + 0] == text[0] as u8);
    }
    assert(skip_ws(b, j) == j);
    assert forall|k: int| j <= k < e implies !is_ascii_ws(#[trigger] b[k]) by {
        assert('0' <= text[k - j] <= '9');
        assert(b[j + (k - j)] == text[k - j] as u8);
    }
    lemma_token_end_at(b, j, e);
    let chars = b.subrange(j, e).map_values(|c: u8| c as char);
    assert forall|k: int| 0 <= k < text.len() implies #[trigger] chars[k] == text[k] by {
        assert('0' <= text[k] <= '9');
        assert(b[j + k] == text[k] as u8);
    }
    assert(chars =~= text);
    assert(text[0] != '+') by {
        assert('0' <= text[0] <= '9');
    }
}

/// What a PPM reader gives back of a written image: every pixel, opaque,
/// when the declared size matches the pixel count and fits a `u32`.
pub proof fn lemma_ppm_round_trip(fb: Seq<Rgba8>, width: usize, height: usize)
    requires
        width <= 0xffff_ffff,
        height <= 0xffff_ffff,
        width * height == fb.len(),
    ensures
        ppm_decode(vstd::utf8::encode_utf8(ppm_header(width, height)) + rgb_bytes(fb))
            == Some(fb.map_values(|p: Rgba8| Rgba8 { r: p.r, g: p.g, b: p.b, a: 255 })),
{
    reveal_strlit("P6\n");
    reveal_strlit(" ");
    reveal_strlit("\n255\n");
    let dw = crate::text::dec_min(width as nat);
    let dh = crate::text::dec_min(height as nat);
    let head = ppm_header(width, height);
    lemma_dec_reads_back(width as nat);
    lemma_dec_reads_back(height as nat);
    assert(vstd::utf8::is_ascii_chars(head)) by {
        assert forall|k: int| 0 <= k < head.len() implies '\0' <= #[trigger] head[k] <= '\u{7f}' by {
            if 3 <= k < 3 + dw.len() {
                assert(head[k] == dw[k - 3]);
            } else if 4 + dw.len() <= k < 4 + dw.len() + dh.len() {
                assert(head[k] == dh[k - 4 - dw.len()]);
            }
        }
    }
    vstd::utf8::is_ascii_chars_encode_utf8(head);
    let hb = vstd::utf8::encode_utf8(head);
    let rgb = rgb_bytes(fb);
    lemma_rgb_bytes(fb);
    let b = hb + rgb;
    let a: int = 3 + dw.len() as int;
    let c: int = a + 1 + dh.len() as int;
    assert(head.len() == c + 5);
    assert(forall|k: int| 0 <= k < head.len() ==> b[k] == #[trigger] head[k] as u8);
    assert(b[0] == 0x50 && b[1] == 0x36 && b[2] == 0x0a);
    assert(b[a] == 0x20);
    assert(b[c] == 0x0a && b[c + 1] == 0x32 && b[c + 2] == 0x35 && b[c + 3] == 0x35 && b[c + 4] == 0x0a);
    assert forall|k: int| 0 <= k < dw.len() implies b[2 + 1 + k] == #[trigger] dw[k] as u8 by {
        assert(head[3 + k] == dw[k]);
    }
    assert forall|k: int| 0 <= k < dh.len() implies b[a + 1 + k] == #[trigger] dh[k] as u8 by {
        assert(head[a + 1 + k] == dh[k]);
    }
    lemma_read_number(b, dw, 2, width as nat);
    lemma_read_number(b, dh, a, height as nat);
    reveal_strlit("255");
    assert("255"@ == crate::text::dec_min(255)) by {
        reveal_with_fuel(crate::text::dec_min, 3);
        let two = crate::text::dec_char(2);
        let five = crate::text::dec_char(5);
        assert(two as u32 == 50 && five as u32 == 53);
        assert(two == '2' && five == '5');
        assert(crate::text::dec_min(2) =~= seq!['2']);
        assert(crate::text::dec_min(25) =~= seq!['2', '5']);
        assert(crate::text::dec_min(255) =~= seq!['2', '5', '5']);
        assert("255"@ =~= seq!['2', '5', '5']);
    }
    assert forall|k: int| 0 <= k < 3 implies b[c + 1 + k] == #[trigger] "255"@[k] as u8 by {}
    lemma_read_number(b, "255"@, c, 255);
    let f0 = seq![width as nat];
    let f1 = f0.push(height as nat);
    let f2 = f1.push(255nat);
    lemma_scan_bounds(b, 2);
    assert(ppm_fields(b, c, f1) == Some((f2, c + 5)));
    assert(ppm_fields(b, a, f0) == ppm_fields(b, c, f1));
    assert(Seq::<nat>::empty().push(width as nat) =~= f0);
    assert(ppm_fields(b, 2, Seq::empty()) == ppm_fields(b, a, f0));
    let want = fb.map_values(|p: Rgba8| Rgba8 { r: p.r, g: p.g, b: p.b, a: 255 });
    let got = Seq::new((width * height) as nat, |p: int| Rgba8 {
        r: b[c + 5 + 3 * p],
        g: b[c + 5 + 3 * p + 1],
        b: b[c + 5 + 3 * p + 2],
        a: 255,
    });
    assert forall|p: int| 0 <= p < fb.len() implies #[trigger] got[p] == want[p] by {
        assert(b[c + 5 + 3 * p] == rgb[3 * p]);
        assert(b[c + 5 + 3 * p + 1] == rgb[3 * p + 1]);
        assert(b[c + 5 + 3 * p + 2] == rgb[3 * p + 2]);
    }
    assert(got =~= want);
}

} // verus!
