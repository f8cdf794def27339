//! Decisions of the eApp runner that stand apart from the emulated CPU:
//! resource-format mapping, watch ranges, diagnostic summaries and the
//! button/input-script logic.
use vstd::prelude::*;
use crate::parse::{chars_of, find_char_in, lower, lower_string_of, parse_uint, parse_uint_range, split_char,
    split_once, string_of, trim, trim_bounds};
use crate::sys::eapp::live_gl::{format_name, push_format_name, LiveArrayDef, LiveGlUpload};
use crate::sys::eapp::rasterizer::TextureFormat;
use crate::text::{dec_min, hex_prefixed, push_dec, push_hex_prefixed};

verus! {

/// The texture format of a resource descriptor's format word: the two
/// alpha-mask words decode as A8; others are unknown.
pub fn ordinal45_resource_format(format: u32) -> (r: Option<TextureFormat>)
    ensures
        r == (if format == 0x8808 || format == 0x0801 { Some(TextureFormat::A8) } else { None }),
{
    if format == 0x8808 || format == 0x0801 {
        Some(TextureFormat::A8)
    } else {
        None
    }
}

/// Whether an access of `access_len` bytes at `access_start` (its end
/// saturating at `u32::MAX`) meets the watch range
/// `watch_start..watch_end`.
pub fn ranges_overlap(access_start: u32, access_len: u32, watch_start: u32, watch_end: u32) -> (r: bool)
    ensures
        r == (access_start < watch_end && watch_start < if access_start + access_len > u32::MAX {
            u32::MAX as int
        } else {
            access_start + access_len
        }),
{
    let access_end = access_start.saturating_add(access_len);
    access_start < watch_end && watch_start < access_end
}

/// `true` or `false`.
pub open spec fn bool_text(b: bool) -> Seq<char> {
    if b { "true"@ } else { "false"@ }
}

fn push_bool(out: &mut String, b: bool)
    ensures
        final(out)@ == old(out)@ + bool_text(b),
{
    proof {
        reveal_strlit("true");
        reveal_strlit("false");
    }
    if b {
        out.append("true");
    } else {
        out.append("false");
    }
}

/// `idx={} comps={} fmt={:#x} stride={} ptr={:#010x} valid={} epoch={}`,
/// or `<none>`.
pub open spec fn array_summary_text(def: Option<LiveArrayDef>) -> Seq<char> {
    match def {
        Some(d) => "idx="@ + dec_min(d.array_index as nat) + " comps="@ + dec_min(d.component_count as nat)
            + " fmt="@ + hex_prefixed(d.format as nat, 0) + " stride="@ + dec_min(d.stride as nat) + " ptr="@
            + hex_prefixed(d.guest_ptr as nat, 10) + " valid="@ + bool_text(d.valid) + " epoch="@
            + dec_min(d.material_epoch as nat),
        None => "<none>"@,
    }
}

/// One line describing a vertex array definition.
pub fn array_summary(def: Option<&LiveArrayDef>) -> (s: String)
    ensures
        s@ == array_summary_text(match def { Some(d) => Some(*d), None => None }),
{
    proof {
        reveal_strlit("idx=");
        reveal_strlit(" comps=");
        reveal_strlit(" fmt=");
        reveal_strlit(" stride=");
        reveal_strlit(" ptr=");
        reveal_strlit(" valid=");
        reveal_strlit(" epoch=");
        reveal_strlit("<none>");
    }
    match def {
        Some(d) => {
            let mut s = String::from_str("idx=");
            push_dec(&mut s, d.array_index as u64);
            s.append(" comps=");
            push_dec(&mut s, d.component_count as u64);
            s.append(" fmt=");
            push_hex_prefixed(&mut s, d.format as u64, 0);
            s.append(" stride=");
            push_dec(&mut s, d.stride as u64);
            s.append(" ptr=");
            push_hex_prefixed(&mut s, d.guest_ptr as u64, 10);
            s.append(" valid=");
            push_bool(&mut s, d.valid);
            s.append(" epoch=");
            push_dec(&mut s, d.material_epoch);
            s
        },
        None => String::from_str("<none>"),
    }
}

/// `Some(Name)` or `None`, as `Debug` shows an optional format.
pub open spec fn opt_format_text(f: Option<TextureFormat>) -> Seq<char> {
    match f {
        Some(x) => "Some("@ + format_name(x) + ")"@,
        None => "None"@,
    }
}

/// `upload={} file={} file_off={} dim={}x{} format={:?} src_fmt={:#x}
/// pix_type={:#x}`, unknown file and offset shown as `<unknown>`.
pub open spec fn upload_summary_text(u: LiveGlUpload) -> Seq<char> {
    "upload="@ + dec_min(u.index as nat) + " file="@
        + (match u.source_file { Some(f) => f@, None => "<unknown>"@ }) + " file_off="@
        + (match u.source_file_offset { Some(o) => dec_min(o as nat), None => "<unknown>"@ }) + " dim="@
        + dec_min(u.width as nat) + "x"@ + dec_min(u.height as nat) + " format="@ + opt_format_text(u.format)
        + " src_fmt="@ + hex_prefixed(u.source_format as nat, 0) + " pix_type="@ + hex_prefixed(u.pixel_type as nat, 0)
}

/// One line describing a texture upload.
pub fn upload_summary(upload: &LiveGlUpload) -> (s: String)
    ensures
        s@ == upload_summary_text(*upload),
{
    proof {
        reveal_strlit("upload=");
        reveal_strlit(" file=");
        reveal_strlit("<unknown>");
        reveal_strlit(" file_off=");
        reveal_strlit(" dim=");
        reveal_strlit("x");
        reveal_strlit(" format=");
        reveal_strlit("Some(");
        reveal_strlit(")");
        reveal_strlit("None");
        reveal_strlit(" src_fmt=");
        reveal_strlit(" pix_type=");
    }
    let mut s = String::from_str("upload=");
    push_dec(&mut s, upload.index as u64);
    s.append(" file=");
    match &upload.source_file {
        Some(f) => s.append(f.as_str()),
        None => s.append("<unknown>"),
    }
    s.append(" file_off=");
    match upload.source_file_offset {
        Some(o) => push_dec(&mut s, o as u64),
        None => s.append("<unknown>"),
    }
    s.append(" dim=");
    push_dec(&mut s, upload.width as u64);
    s.append("x");
    push_dec(&mut s, upload.height as u64);
    s.append(" format=");
    match upload.format {
        Some(f) => {
            s.append("Some(");
            push_format_name(&mut s, f);
            s.append(")");
        },
        None => s.append("None"),
    }
    s.append(" src_fmt=");
    push_hex_prefixed(&mut s, upload.source_format as u64, 0);
    s.append(" pix_type=");
    push_hex_prefixed(&mut s, upload.pixel_type as u64, 0);
    s
}

/// The host's button state. The wheel delta is an IEEE-754
/// single-precision bit pattern.
#[derive(Debug, Default, Clone)]
pub struct EappInputState {
    pub up: bool,
    pub down: bool,
    pub left: bool,
    pub right: bool,
    pub action: bool,
    pub menu: bool,
    pub wheel_delta: u32,
}

/// The compact button bits: up, down, left, right, action and menu in
/// bits 0 to 5.
pub open spec fn state_bits(s: EappInputState) -> u32 {
    (if s.up { 1u32 } else { 0 }) | (if s.down { 2u32 } else { 0 }) | (if s.left { 4u32 } else { 0 })
        | (if s.right { 8u32 } else { 0 }) | (if s.action { 16u32 } else { 0 }) | (if s.menu { 32u32 } else { 0 })
}

pub fn input_state_bits(state: &EappInputState) -> (bits: u32)
    ensures
        bits == state_bits(*state),
{
    (if state.up { 1u32 } else { 0 }) | (if state.down { 2u32 } else { 0 }) | (if state.left { 4u32 } else { 0 })
        | (if state.right { 8u32 } else { 0 }) | (if state.action { 16u32 } else { 0 }) | (if state.menu { 32u32 } else { 0 })
}

/// One input-script entry `key:start-end` of a trimmed, nonempty piece,
/// active when the frame lies in `start..=end`: the lowered, trimmed key
/// and the trimmed range.
pub open spec fn script_entry(piece: Seq<char>, frame: u64) -> Option<(Seq<char>, Seq<char>)> {
    let e = trim(piece);
    if e.len() == 0 {
        None
    } else {
        match split_once(e, ':') {
            None => None,
            Some((key, range)) => match split_once(range, '-') {
                None => None,
                Some((a, b)) => match (parse_uint(trim(a), 10, u64::MAX as nat), parse_uint(trim(b), 10, u64::MAX as nat)) {
                    (Some(start), Some(end)) => if frame < start || frame > end {
                        None
                    } else {
                        Some((lower(trim(key)), trim(range)))
                    },
                    _ => None,
                },
            },
        }
    }
}

/// The active entries of a script split at commas, in order.
pub open spec fn script_entries(pieces: Seq<Seq<char>>, frame: u64) -> Seq<(Seq<char>, Seq<char>)>
    decreases pieces.len(),
{
    if pieces.len() == 0 {
        Seq::empty()
    } else {
        let rest = script_entries(pieces.drop_last(), frame);
        match script_entry(pieces.last(), frame) {
            Some(e) => rest.push(e),
            None => rest,
        }
    }
}

/// The entry of `cs[a..b]`, if active.
fn entry_in(cs: &[char], a: usize, b: usize, frame: u64) -> (r: Option<(String, String)>)
    requires
        a <= b <= cs@.len(),
    ensures
        match script_entry(cs@.subrange(a as int, b as int), frame) {
            Some((k, v)) => r matches Some((rk, rv)) && rk@ == k && rv@ == v,
            None => r is None,
        },
{
    let (i, j) = trim_bounds(cs, a, b);
    if i == j {
        return None;
    }
    let ghost e = cs@.subrange(i as int, j as int);
    let colon = match find_char_in(cs, i, j, ':') {
        Some(c) => c,
        None => return None,
    };
    assert(e.take(colon - i) =~= cs@.subrange(i as int, colon as int));
    assert(e.skip(colon - i + 1) =~= cs@.subrange(colon + 1, j as int));
    let ghost range = cs@.subrange(colon + 1, j as int);
    let dash = match find_char_in(cs, colon + 1, j, '-') {
        Some(d) => d,
        None => return None,
    };
    assert(range.take(dash - colon - 1) =~= cs@.subrange(colon + 1, dash as int));
    assert(range.skip(dash - colon) =~= cs@.subrange(dash + 1, j as int));
    let (s0, s1) = trim_bounds(cs, colon + 1, dash);
    let (e0, e1) = trim_bounds(cs, dash + 1, j);
    let start = match parse_uint_range(cs, s0, s1, 10, u64::MAX) {
        Some(v) => v,
        None => return None,
    };
    let end = match parse_uint_range(cs, e0, e1, 10, u64::MAX) {
        Some(v) => v,
        None => return None,
    };
    if frame < start || frame > end {
        return None;
    }
    let (k0, k1) = trim_bounds(cs, i, colon);
    let (r0, r1) = trim_bounds(cs, colon + 1, j);
    Some((lower_string_of(cs, k0, k1), string_of(cs, r0, r1)))
}

/// The input-script entries active at `frame`: the script is split at
/// commas, and each trimmed, nonempty piece `key:start-end` whose frame
/// range holds `frame` gives its lowered key and trimmed range.
pub fn active_input_script_entries(script: &str, frame: u64) -> (out: Vec<(String, String)>)
    ensures
        out@.map_values(|e: (String, String)| (e.0@, e.1@)) == script_entries(split_char(script@, ','), frame),
{
    let cs = chars_of(script);
    let n = cs.len();
    let mut out: Vec<(String, String)> = Vec::new();
    let mut start: usize = 0;
    let mut k: usize = 0;
    let ghost mut done: Seq<Seq<char>> = Seq::empty();
    assert(cs@.subrange(0, n as int) =~= script@);
    assert(done + split_char(cs@.subrange(0, n as int), ',') =~= split_char(script@, ','));
    while k <= n
        invariant
            cs@ == script@,
            n == cs@.len(),
            start <= k,
            k <= n,
            forall|q: int| start <= q < k ==> cs@[q] != ',',
            done + split_char(cs@.subrange(start as int, n as int), ',') == split_char(script@, ','),
            out@.map_values(|e: (String, String)| (e.0@, e.1@)) == script_entries(done, frame),
        decreases n + 1 - k,
    {
        if k == n || cs[k] == ',' {
            let entry = entry_in(cs.as_slice(), start, k, frame);
            let ghost piece = cs@.subrange(start as int, k as int);
            proof {
                let rest = cs@.subrange(start as int, n as int);
                crate::parse::lemma_find_char_bounds(rest, ',');
                if k < n {
                    assert(crate::parse::find_char(rest, ',') == Some(k - start)) by {
                        assert(rest[k - start] == ',');
                        if let Some(f) = crate::parse::find_char(rest, ',') {
                            if f < k - start {
                                assert(rest[f] == cs@[start + f]);
                            }
                        }
                    }
                    assert(rest.take(k - start) =~= piece);
                    assert(rest.skip(k - start + 1) =~= cs@.subrange(k + 1, n as int));
                    assert(done + split_char(rest, ',') =~= done.push(piece) + split_char(cs@.subrange(k + 1, n as int), ','));
                } else {
                    assert forall|j: int| 0 <= j < rest.len() implies rest[j] != ',' by {
                        assert(rest[j] == cs@[start + j]);
                    }
                    assert(split_char(rest, ',') == seq![rest]);
                    assert(rest =~= piece);
                    assert(done + split_char(rest, ',') =~= done.push(piece));
                }
                assert(done.push(piece).drop_last() =~= done);
            }
            let ghost before = out@.map_values(|e: (String, String)| (e.0@, e.1@));
            match entry {
                Some(e) => {
                    out.push(e);
                    assert(out@.map_values(|e: (String, String)| (e.0@, e.1@)) =~= before.push(
                        script_entry(piece, frame)->0));
                },
                None => {},
            }
            proof {
                done = done.push(piece);
            }
            if k == n {
                return out;
            }
            start = k + 1;
        }
        k += 1;
    }
    out
}

/// Whether `s` starts with the characters of `p`.
pub open spec fn has_prefix(s: Seq<char>, p: Seq<char>) -> bool {
    p.len() <= s.len() && s.take(p.len() as int) == p
}

/// `s` with every leading `0x` removed.
pub open spec fn strip_hex_prefixes(s: Seq<char>) -> Seq<char>
    decreases s.len(),
{
    if s.len() >= 2 && s[0] == '0' && s[1] == 'x' {
        strip_hex_prefixes(s.skip(2))
    } else {
        s
    }
}

/// The raw mask of a `bits=` or `raw=` key: hexadecimal after any `0x`
/// prefixes, else decimal.
pub open spec fn key_mask(key: Seq<char>) -> Option<nat> {
    let raw = if has_prefix(key, "bits="@) {
        Some(key.skip(5))
    } else if has_prefix(key, "raw="@) {
        Some(key.skip(4))
    } else {
        None
    };
    match raw {
        None => None,
        Some(r) => raw_mask(r),
    }
}

/// A raw mask: hexadecimal after any `0x` prefixes, else decimal.
pub open spec fn raw_mask(r: Seq<char>) -> Option<nat> {
    match parse_uint(strip_hex_prefixes(r), 16, 0xffff_ffff) {
        Some(v) => Some(v),
        None => parse_uint(r, 10, 0xffff_ffff),
    }
}

/// The OR of the raw masks of `entries`.
pub open spec fn script_bits(entries: Seq<(Seq<char>, Seq<char>)>) -> u32
    decreases entries.len(),
{
    if entries.len() == 0 {
        0
    } else {
        script_bits(entries.drop_last()) | match key_mask(entries.last().0) {
            Some(m) => m as u32,
            None => 0u32,
        }
    }
}

/// The button id of an `event=` key, when it is 1 to 5.
pub open spec fn key_event(key: Seq<char>) -> Option<nat> {
    if has_prefix(key, "event="@) {
        match parse_uint(key.skip(6), 10, 255) {
            Some(id) => if 1 <= id <= 5 { Some(id) } else { None },
            None => None,
        }
    } else {
        None
    }
}

/// The OR of the event bits of `entries`.
pub open spec fn script_event_bits(entries: Seq<(Seq<char>, Seq<char>)>) -> u8
    decreases entries.len(),
{
    if entries.len() == 0 {
        0
    } else {
        script_event_bits(entries.drop_last()) | match key_event(entries.last().0) {
            Some(id) => (1u8 << (id as u8)) as u8,
            None => 0u8,
        }
    }
}

/// The event-id bits of the held buttons: menu 1, action 2, left 3,
/// right 4, up or down 5.
pub open spec fn state_event_bits(s: EappInputState) -> u8 {
    (if s.menu { 2u8 } else { 0 }) | (if s.action { 4u8 } else { 0 }) | (if s.left { 8u8 } else { 0 })
        | (if s.right { 16u8 } else { 0 }) | (if s.up || s.down { 32u8 } else { 0 })
}

fn starts_with_chars(cs: &[char], a: usize, b: usize, p: &str) -> (r: bool)
    requires
        a <= b <= cs@.len(),
    ensures
        r == has_prefix(cs@.subrange(a as int, b as int), p@),
{
    let n = p.unicode_len();
    if n > b - a {
        return false;
    }
    let mut i: usize = 0;
    while i < n
        invariant
            n == p@.len(),
            a + n <= b <= cs@.len(),
            i <= n,
            forall|j: int| 0 <= j < i ==> cs@[a + j] == p@[j],
        decreases n - i,
    {
        if cs[a + i] != p.get_char(i) {
            assert(cs@.subrange(a as int, b as int).take(n as int)[i as int] != p@[i as int]);
            return false;
        }
        i += 1;
    }
    assert(cs@.subrange(a as int, b as int).take(n as int) =~= p@);
    true
}

/// The raw mask of `key` (see `key_mask`).
fn mask_of_key(key: &str) -> (r: Option<u32>)
    ensures
        r matches Some(v) ==> key_mask(key@) == Some(v as nat),
        r is None ==> key_mask(key@) is None,
{
    proof {
        reveal_strlit("bits=");
        reveal_strlit("raw=");
    }
    let cs = chars_of(key);
    let n = cs.len();
    assert(cs@.subrange(0, n as int) =~= key@);
    let start = if starts_with_chars(cs.as_slice(), 0, n, "bits=") {
        5
    } else if starts_with_chars(cs.as_slice(), 0, n, "raw=") {
        4
    } else {
        return None;
    };
    assert(cs@.subrange(start as int, n as int) =~= key@.skip(start as int));
    raw_mask_in(cs.as_slice(), start, n)
}

/// The raw mask of `cs[start..n]` (see `raw_mask`).
fn raw_mask_in(cs: &[char], start: usize, n: usize) -> (r: Option<u32>)
    requires
        start <= n == cs@.len(),
    ensures
        r matches Some(v) ==> raw_mask(cs@.subrange(start as int, n as int)) == Some(v as nat),
        r is None ==> raw_mask(cs@.subrange(start as int, n as int)) is None,
{
    let ghost raw = cs@.subrange(start as int, n as int);
    let mut h = start;
    while h < n && n - h >= 2 && cs[h] == '0' && cs[h + 1] == 'x'
        invariant
            start <= h <= n,
            n == cs@.len(),
            strip_hex_prefixes(raw) == strip_hex_prefixes(cs@.subrange(h as int, n as int)),
        decreases n - h,
    {
        assert(cs@.subrange(h as int, n as int).skip(2) =~= cs@.subrange(h + 2, n as int));
        h += 2;
    }
    assert(strip_hex_prefixes(cs@.subrange(h as int, n as int)) == cs@.subrange(h as int, n as int));
    match parse_uint_range(cs, h, n, 16, 0xffff_ffff) {
        Some(v) => Some(v as u32),
        None => match parse_uint_range(cs, start, n, 10, 0xffff_ffff) {
            Some(v) => Some(v as u32),
            None => None,
        },
    }
}

/// The button id of `key` (see `key_event`).
fn event_of_key(key: &str) -> (r: Option<u8>)
    ensures
        r matches Some(v) ==> key_event(key@) == Some(v as nat),
        r is None ==> key_event(key@) is None,
{
    proof {
        reveal_strlit("event=");
    }
    let cs = chars_of(key);
    let n = cs.len();
    assert(cs@.subrange(0, n as int) =~= key@);
    if !starts_with_chars(cs.as_slice(), 0, n, "event=") {
        return None;
    }
    assert(cs@.subrange(6, n as int) =~= key@.skip(6));
    match parse_uint_range(cs.as_slice(), 6, n, 10, 255) {
        Some(id) => if 1 <= id && id <= 5 { Some(id as u8) } else { None },
        None => None,
    }
}

/// The OR of the `bits=`/`raw=` masks of the active script entries.
pub fn input_script_bits(entries: &Vec<(String, String)>) -> (bits: u32)
    ensures
        bits == script_bits(entries@.map_values(|e: (String, String)| (e.0@, e.1@))),
{
    let ghost es = entries@.map_values(|e: (String, String)| (e.0@, e.1@));
    let mut bits = 0u32;
    let mut k: usize = 0;
    while k < entries.len()
        invariant
            es == entries@.map_values(|e: (String, String)| (e.0@, e.1@)),
            k <= entries@.len(),
            bits == script_bits(es.take(k as int)),
        decreases entries@.len() - k,
    {
        proof {
            assert(es.take(k + 1).drop_last() =~= es.take(k as int));
            assert(es.take(k + 1).last() == es[k as int]);
        }
        assert(es[k as int].0 == entries@[k as int].0@);
        let ghost prev = bits;
        match mask_of_key(entries[k].0.as_str()) {
            Some(m) => {
                bits = bits | m;
            },
            None => {
                assert(bits == prev | 0u32) by (bit_vector) requires bits == prev;
            },
        }
        k += 1;
    }
    assert(es.take(es.len() as int) =~= es);
    bits
}

/// The event-id bits of the held buttons and of the active `event=`
/// script entries.
pub fn input_event_id_mask(state: &EappInputState, entries: &Vec<(String, String)>) -> (mask: u8)
    ensures
        mask == state_event_bits(*state) | script_event_bits(entries@.map_values(|e: (String, String)| (e.0@, e.1@))),
{
    let mut mask: u8 = (if state.menu { 2u8 } else { 0 }) | (if state.action { 4u8 } else { 0 })
        | (if state.left { 8u8 } else { 0 }) | (if state.right { 16u8 } else { 0 })
        | (if state.up || state.down { 32u8 } else { 0 });
    let ghost base = mask;
    let ghost es = entries@.map_values(|e: (String, String)| (e.0@, e.1@));
    let mut k: usize = 0;
    assert(mask == base | 0u8) by (bit_vector) requires mask == base;
    while k < entries.len()
        invariant
            es == entries@.map_values(|e: (String, String)| (e.0@, e.1@)),
            k <= entries@.len(),
            base == state_event_bits(*state),
            mask == base | script_event_bits(es.take(k as int)),
        decreases entries@.len() - k,
    {
        proof {
            assert(es.take(k + 1).drop_last() =~= es.take(k as int));
            assert(es.take(k + 1).last() == es[k as int]);
        }
        assert(es[k as int].0 == entries@[k as int].0@);
        match event_of_key(entries[k].0.as_str()) {
            Some(id) => {
                let ghost prev = script_event_bits(es.take(k as int));
                let bit: u8 = 1u8 << id;
                mask = mask | bit;
                assert(mask == base | (prev | bit)) by (bit_vector)
                    requires mask == ((base | prev) | bit);
            },
            None => {
                let ghost prev = script_event_bits(es.take(k as int));
                assert(mask == base | (prev | 0u8)) by (bit_vector)
                    requires mask == (base | prev);
            },
        }
        k += 1;
    }
    assert(es.take(es.len() as int) =~= es);
    mask
}

/// Press events (kind 2) and release events (kind 1) for buttons 1 to 5
/// whose bits differ between `previous` and `current`, by button id.
pub open spec fn edge_events(current: u8, previous: u8, upto: nat) -> Seq<(u8, u8)>
    decreases upto,
{
    if upto <= 1 {
        Seq::empty()
    } else {
        let id = (upto - 1) as u8;
        let bit = (1u8 << id) as u8;
        let pressed = current & !previous;
        let released = previous & !current;
        edge_events(current, previous, (upto - 1) as nat)
            + (if pressed & bit != 0 { seq![(id, 2u8)] } else { Seq::empty() })
            + (if released & bit != 0 { seq![(id, 1u8)] } else { Seq::empty() })
    }
}

/// The button edges between two event-id masks (see `edge_events`).
pub fn input_edge_events(current: u8, previous: u8) -> (events: Vec<(u8, u8)>)
    ensures
        events@ == edge_events(current, previous, 6),
{
    let pressed = current & !previous;
    let released = previous & !current;
    let mut events: Vec<(u8, u8)> = Vec::new();
    let mut id: u8 = 1;
    while id <= 5
        invariant
            1 <= id <= 6,
            pressed == current & !previous,
            released == previous & !current,
            events@ == edge_events(current, previous, id as nat),
        decreases 6 - id,
    {
        let bit = 1u8 << id;
        let ghost before = events@;
        if pressed & bit != 0 {
            events.push((id, 2u8));
        }
        if released & bit != 0 {
            events.push((id, 1u8));
        }
        id += 1;
        assert(events@ =~= edge_events(current, previous, id as nat));
    }
    events
}

/// Apply the button names of the active script entries: `up`, `down`,
/// `left`, `right`, `action` (also `select`, `enter`) and `menu` (also
/// `m`) press their button; other keys are ignored.
pub fn apply_input_script(state: &mut EappInputState, entries: &Vec<(String, String)>)
    ensures
        ({
            let keys = entries@.map_values(|e: (String, String)| e.0@);
            let has = |w: Seq<char>| keys.contains(w);
            &&& final(state).up == (old(state).up || has("up"@))
            &&& final(state).down == (old(state).down || has("down"@))
            &&& final(state).left == (old(state).left || has("left"@))
            &&& final(state).right == (old(state).right || has("right"@))
            &&& final(state).action == (old(state).action || has("action"@) || has("select"@) || has("enter"@))
            &&& final(state).menu == (old(state).menu || has("menu"@) || has("m"@))
            &&& final(state).wheel_delta == old(state).wheel_delta
        }),
{
    proof {
        reveal_strlit("up");
        reveal_strlit("down");
        reveal_strlit("left");
        reveal_strlit("right");
        reveal_strlit("action");
        reveal_strlit("select");
        reveal_strlit("enter");
        reveal_strlit("menu");
        reveal_strlit("m");
    }
    let ghost keys = entries@.map_values(|e: (String, String)| e.0@);
    let mut k: usize = 0;
    while k < entries.len()
        invariant
            keys == entries@.map_values(|e: (String, String)| e.0@),
            k <= entries@.len(),
            state.up == (old(state).up || keys.take(k as int).contains("up"@)),
            state.down == (old(state).down || keys.take(k as int).contains("down"@)),
            state.left == (old(state).left || keys.take(k as int).contains("left"@)),
            state.right == (old(state).right || keys.take(k as int).contains("right"@)),
            state.action == (old(state).action || keys.take(k as int).contains("action"@)
                || keys.take(k as int).contains("select"@) || keys.take(k as int).contains("enter"@)),
            state.menu == (old(state).menu || keys.take(k as int).contains("menu"@) || keys.take(k as int).contains("m"@)),
            state.wheel_delta == old(state).wheel_delta,
        decreases entries@.len() - k,
    {
        let key = entries[k].0.as_str();
        proof {
            reveal_strlit("up");
            reveal_strlit("down");
            reveal_strlit("left");
            reveal_strlit("right");
            reveal_strlit("action");
            reveal_strlit("select");
            reveal_strlit("enter");
            reveal_strlit("menu");
            reveal_strlit("m");
            let t1 = keys.take(k + 1);
            let t0 = keys.take(k as int);
            assert(t1 =~= t0.push(key@));
            assert forall|w: Seq<char>| #[trigger] t1.contains(w) <==> (t0.contains(w) || w == key@) by {
                if t1.contains(w) {
                    let q = choose|q: int| 0 <= q < t1.len() && #[trigger] t1[q] == w;
                    if q < k {
                        assert(t0[q] == w);
                    }
                }
                if t0.contains(w) {
                    let q = choose|q: int| 0 <= q < t0.len() && #[trigger] t0[q] == w;
                    assert(t1[q] == w);
                }
                if w == key@ {
                    assert(t1[k as int] == w);
                }
            }
            assert(t1.contains("up"@) == (t0.contains("up"@) || key@ == "up"@));
            assert(t1.contains("down"@) == (t0.contains("down"@) || key@ == "down"@));
            assert(t1.contains("left"@) == (t0.contains("left"@) || key@ == "left"@));
            assert(t1.contains("right"@) == (t0.contains("right"@) || key@ == "right"@));
            assert(t1.contains("action"@) == (t0.contains("action"@) || key@ == "action"@));
            assert(t1.contains("select"@) == (t0.contains("select"@) || key@ == "select"@));
            assert(t1.contains("enter"@) == (t0.contains("enter"@) || key@ == "enter"@));
            assert(t1.contains("menu"@) == (t0.contains("menu"@) || key@ == "menu"@));
            assert(t1.contains("m"@) == (t0.contains("m"@) || key@ == "m"@));
            assert("up"@[0] == 'u' && "down"@[0] == 'd' && "left"@[0] == 'l' && "right"@[0] == 'r');
            assert("action"@[0] == 'a' && "select"@[0] == 's' && "enter"@[0] == 'e' && "menu"@[0] == 'm');
            assert("m"@[0] == 'm' && "m"@.len() == 1 && "menu"@.len() == 4);
        }
        if crate::text::str_eq(key, "up") {
            state.up = true;
        } else if crate::text::str_eq(key, "down") {
            state.down = true;
        } else if crate::text::str_eq(key, "left") {
            state.left = true;
        } else if crate::text::str_eq(key, "right") {
            state.right = true;
        } else if crate::text::str_eq(key, "action") || crate::text::str_eq(key, "select")
            || crate::text::str_eq(key, "enter") {
            state.action = true;
        } else if crate::text::str_eq(key, "menu") || crate::text::str_eq(key, "m") {
            state.menu = true;
        }
        k += 1;
    }
    assert(keys.take(keys.len() as int) =~= keys);
}

} // verus!
