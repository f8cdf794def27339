//! Structural analysis of a render-server (`rserver.bin`) program: the
//! apparent instruction word stream, embedded strings, runtime blocks and a
//! placeholder interpreter that only walks the word stream.
use vstd::prelude::*;
use crate::sys::eapp::rasterizer::{le32, read_le32};
use crate::text::{ascii_chars, ascii_to_string, dec_min, hex_pad, hex_prefixed, push_dec, push_hex, push_hex_prefixed, starts_with};

verus! {

/// One 32-bit word of the program with its halves.
#[derive(Clone, Debug)]
pub struct UsseWord {
    pub offset: usize,
    pub raw: u32,
    pub lo: u16,
    pub hi: u16,
}

/// A printable ASCII run found in the program bytes.
#[derive(Clone, Debug)]
pub struct UsseString {
    pub offset: usize,
    pub value: String,
}

/// A `0xCAFEBABE`-tagged block found in runtime memory.
#[derive(Clone, Debug)]
pub struct RserverBlock {
    pub addr: u32,
    pub offset: usize,
    pub len_words: u32,
    pub words: Vec<u32>,
}

/// A parsed program.
#[derive(Clone, Debug)]
pub struct UsseProgram {
    pub base_addr: u32,
    pub byte_len: usize,
    pub code_start: usize,
    pub code_end: usize,
    pub words: Vec<UsseWord>,
    pub strings: Vec<UsseString>,
    pub render_server_version: Option<String>,
}

/// Interpreter state for the placeholder walker.
#[derive(Clone, Debug, Default)]
pub struct UsseVm {
    pub pc_word: usize,
    pub scalar_regs: [u32; 16],
    pub predicate: bool,
    pub halted: bool,
    pub executed_words: usize,
}

/// A byte in the printable ASCII range `0x20..=0x7e`.
pub open spec fn printable(b: u8) -> bool {
    0x20 <= b <= 0x7e
}

/// Whether `b` is printable ASCII.
pub fn is_printable(b: u8) -> (r: bool)
    ensures
        r == printable(b),
{
    0x20 <= b && b <= 0x7e
}

/// The end of the printable run that starts at `i`.
pub open spec fn run_end(bytes: Seq<u8>, i: int) -> int
    decreases bytes.len() - i,
{
    if i < 0 || i >= bytes.len() || !printable(bytes[i]) {
        i
    } else {
        run_end(bytes, i + 1)
    }
}

/// The printable runs of at least `min_len` bytes at or after `i`, as
/// (offset, text) pairs in order.
pub open spec fn ascii_runs(bytes: Seq<u8>, i: int, min_len: int) -> Seq<(int, Seq<char>)>
    decreases bytes.len() - i, 1int,
{
    if i < 0 || i >= bytes.len() {
        Seq::empty()
    } else if !printable(bytes[i]) {
        ascii_runs(bytes, i + 1, min_len)
    } else {
        let e = run_end(bytes, i);
        let rest = if i < e <= bytes.len() { ascii_runs(bytes, e, min_len) } else { Seq::empty() };
        if e - i >= min_len {
            seq![(i, ascii_chars(bytes.subrange(i, e)))] + rest
        } else {
            rest
        }
    }
}

proof fn lemma_run_end(bytes: Seq<u8>, i: int)
    requires
        0 <= i <= bytes.len(),
    ensures
        i <= run_end(bytes, i) <= bytes.len(),
        forall|k: int| i <= k < run_end(bytes, i) ==> printable(#[trigger] bytes[k]),
        run_end(bytes, i) < bytes.len() ==> !printable(bytes[run_end(bytes, i)]),
    decreases bytes.len() - i,
{
    if i < bytes.len() && printable(bytes[i]) {
        lemma_run_end(bytes, i + 1);
    }
}

/// The view of a found string.
pub open spec fn string_view(s: UsseString) -> (int, Seq<char>) {
    (s.offset as int, s.value@)
}

/// Find every printable ASCII run of at least `min_len` bytes.
pub fn extract_ascii_strings(bytes: &[u8], min_len: usize) -> (out: Vec<UsseString>)
    requires
        min_len >= 1,
    ensures
        out@.map_values(|s: UsseString| string_view(s)) == ascii_runs(bytes@, 0, min_len as int),
{
    let mut out: Vec<UsseString> = Vec::new();
    let mut i: usize = 0;
    assert(bytes@.len() == bytes.len());
    while i < bytes.len()
        invariant
            bytes@.len() == bytes.len(),
            min_len >= 1,
            i <= bytes@.len(),
            out@.map_values(|s: UsseString| string_view(s)) + ascii_runs(bytes@, i as int, min_len as int)
                == ascii_runs(bytes@, 0, min_len as int),
        decreases bytes.len() - i,
    {
        let ghost before = out@.map_values(|s: UsseString| string_view(s));
        if is_printable(bytes[i]) {
            let start = i;
            proof {
                lemma_run_end(bytes@, start as int);
            }
            while i < bytes.len() && is_printable(bytes[i])
                invariant
                    bytes@.len() == bytes.len(),
                    start <= i <= bytes@.len(),
                    start < bytes@.len(),
                    run_end(bytes@, start as int) == run_end(bytes@, i as int),
                decreases bytes.len() - i,
            {
                i += 1;
            }
            proof {
                lemma_run_end(bytes@, start as int);
                assert(i == run_end(bytes@, start as int));
            }
            if i - start >= min_len {
                let slice = crate::sys::eapp::usse::subslice(bytes, start, i);
                let value = ascii_to_string(slice.as_slice());
                out.push(UsseString { offset: start, value });
                proof {
                    assert(out@.map_values(|s: UsseString| string_view(s))
                        =~= before.push((start as int, ascii_chars(bytes@.subrange(start as int, i as int)))));
                    assert(seq![(start as int, ascii_chars(bytes@.subrange(start as int, i as int)))]
                        + ascii_runs(bytes@, i as int, min_len as int) == ascii_runs(bytes@, start as int, min_len as int));
                }
            }
        } else {
            i += 1;
        }
    }
    out
}

/// A copy of `bytes[start..end]` whose bytes are all printable.
fn subslice(bytes: &[u8], start: usize, end: usize) -> (out: Vec<u8>)
    requires
        start <= end <= bytes@.len(),
        forall|k: int| start <= k < end ==> printable(#[trigger] bytes@[k]),
    ensures
        out@ == bytes@.subrange(start as int, end as int),
        forall|k: int| 0 <= k < out@.len() ==> #[trigger] out@[k] < 128,
{
    let mut out: Vec<u8> = Vec::new();
    let mut k = start;
    while k < end
        invariant
            start <= k <= end <= bytes@.len(),
            out@ == bytes@.subrange(start as int, k as int),
        decreases end - k,
    {
        out.push(bytes[k]);
        proof {
            assert(out@ =~= bytes@.subrange(start as int, k + 1));
        }
        k += 1;
    }
    out
}

/// The marker that opens the render-server version string.
pub open spec fn version_marker() -> Seq<char> {
    "RenderServerVersion:"@
}

/// The first found string that starts with the version marker.
pub open spec fn first_version(strings: Seq<(int, Seq<char>)>) -> Option<(int, Seq<char>)>
    decreases strings.len(),
{
    if strings.len() == 0 {
        None
    } else if version_marker().len() <= strings[0].1.len()
        && strings[0].1.take(version_marker().len() as int) == version_marker() {
        Some(strings[0])
    } else {
        first_version(strings.drop_first())
    }
}

/// Where the apparent instruction stream starts: at 0x200 when the blob is
/// that long, else at 0.
pub open spec fn code_start_spec(len: int) -> int {
    if len >= 0x200 { 0x200 } else { 0 }
}

/// Where it ends: at the version string when there is one, else at the end.
pub open spec fn code_end_spec(bytes: Seq<u8>) -> int {
    match first_version(ascii_runs(bytes, 0, 8)) {
        Some(v) => v.0,
        None => bytes.len() as int,
    }
}

/// Whether found text starts with `RenderServerVersion:`.
pub open spec fn has_version_marker(text: Seq<char>) -> bool {
    text.len() >= 20 && text.take(20) == "RenderServerVersion:"@
}

proof fn lemma_first_version_at(ss: Seq<(int, Seq<char>)>, j: int)
    requires
        0 <= j < ss.len(),
        has_version_marker(ss[j].1),
        forall|k: int| 0 <= k < j ==> !has_version_marker(#[trigger] ss[k].1),
    ensures
        first_version(ss) == Some(ss[j]),
    decreases j,
{
    reveal_strlit("RenderServerVersion:");
    if j > 0 {
        let rest = ss.drop_first();
        assert forall|k: int| 0 <= k < j - 1 implies !has_version_marker(#[trigger] rest[k].1) by {
            assert(rest[k] == ss[k + 1]);
        }
        assert(!has_version_marker(ss[0].1));
        lemma_first_version_at(rest, j - 1);
    }
}

proof fn lemma_first_version_none(ss: Seq<(int, Seq<char>)>)
    requires
        forall|k: int| 0 <= k < ss.len() ==> !has_version_marker(#[trigger] ss[k].1),
    ensures
        first_version(ss) is None,
    decreases ss.len(),
{
    reveal_strlit("RenderServerVersion:");
    if ss.len() > 0 {
        let rest = ss.drop_first();
        assert forall|k: int| 0 <= k < rest.len() implies !has_version_marker(#[trigger] rest[k].1) by {
            assert(rest[k] == ss[k + 1]);
        }
        assert(!has_version_marker(ss[0].1));
        lemma_first_version_none(rest);
    }
}

proof fn lemma_first_version_marked(ss: Seq<(int, Seq<char>)>)
    ensures
        first_version(ss) matches Some(v) ==> has_version_marker(v.1),
    decreases ss.len(),
{
    reveal_strlit("RenderServerVersion:");
    if ss.len() > 0 {
        lemma_first_version_marked(ss.drop_first());
    }
}

/// The instruction stream ends where the version string starts: among the
/// printable runs of at least eight bytes, the first one whose text begins
/// with `RenderServerVersion:` gives the end offset; without one the
/// stream runs to the end of the blob.
pub proof fn lemma_code_end_at_version(bytes: Seq<u8>, j: int)
    ensures
        (forall|k: int| 0 <= k < ascii_runs(bytes, 0, 8).len()
            ==> !has_version_marker(#[trigger] ascii_runs(bytes, 0, 8)[k].1))
            ==> code_end_spec(bytes) == bytes.len(),
        (0 <= j < ascii_runs(bytes, 0, 8).len() && has_version_marker(ascii_runs(bytes, 0, 8)[j].1)
            && forall|k: int| 0 <= k < j ==> !has_version_marker(#[trigger] ascii_runs(bytes, 0, 8)[k].1))
            ==> code_end_spec(bytes) == ascii_runs(bytes, 0, 8)[j].0,
{
    let runs = ascii_runs(bytes, 0, 8);
    if forall|k: int| 0 <= k < runs.len() ==> !has_version_marker(#[trigger] runs[k].1) {
        lemma_first_version_none(runs);
    }
    if 0 <= j < runs.len() && has_version_marker(runs[j].1)
        && forall|k: int| 0 <= k < j ==> !has_version_marker(#[trigger] runs[k].1) {
        lemma_first_version_at(runs, j);
    }
}

/// Whole words between `start` and `end`.
pub open spec fn word_count(start: int, end: int) -> int {
    if end >= start + 4 { (end - start) / 4 } else { 0 }
}

/// Word `k` of the stream starting at byte `start`.
pub open spec fn word_spec(bytes: Seq<u8>, start: int, k: int, w: UsseWord) -> bool {
    let off = start + 4 * k;
    let raw = le32(bytes, off);
    &&& w.offset == off
    &&& w.raw == raw
    &&& w.lo == raw % 65536
    &&& w.hi == raw / 65536
}

impl UsseProgram {
    /// Parse a render-server blob loaded at `base_addr`: the word stream
    /// runs from `code_start_spec` to `code_end_spec`, strings are the
    /// printable runs of at least eight bytes, and the version is the first
    /// of them that starts with `RenderServerVersion:`.
    pub fn parse(base_addr: u32, bytes: &[u8]) -> (p: Self)
        ensures
            p.base_addr == base_addr,
            p.byte_len == bytes@.len(),
            p.code_start == code_start_spec(bytes@.len() as int),
            p.code_end == code_end_spec(bytes@),
            p.strings@.map_values(|s: UsseString| string_view(s)) == ascii_runs(bytes@, 0, 8),
            p.render_server_version matches Some(v) ==> first_version(ascii_runs(bytes@, 0, 8)) matches Some(f) && v@ == f.1,
            p.render_server_version is None ==> first_version(ascii_runs(bytes@, 0, 8)) is None,
            p.words@.len() == word_count(p.code_start as int, p.code_end as int),
            forall|k: int| 0 <= k < p.words@.len() ==> #[trigger] p.words@[k].offset + 4 <= p.code_end,
            forall|j: int| 0 <= j < p.strings@.len() && has_version_marker(p.strings@[j].value@)
                && (forall|k: int| 0 <= k < j ==> !has_version_marker(#[trigger] p.strings@[k].value@))
                ==> p.code_end == p.strings@[j].offset,
            (forall|k: int| 0 <= k < p.strings@.len() ==> !has_version_marker(#[trigger] p.strings@[k].value@))
                ==> p.code_end == p.byte_len,
            forall|k: int| 0 <= k < p.words@.len() ==> word_spec(bytes@, p.code_start as int, k, #[trigger] p.words@[k]),
    {
        assert(bytes@.len() == bytes.len());
        let code_start: usize = if bytes.len() >= 0x200 { 0x200 } else { 0 };
        let strings = extract_ascii_strings(bytes, 8);
        let ghost views = strings@.map_values(|s: UsseString| string_view(s));
        proof {
            reveal_strlit("RenderServerVersion:");
        }
        let mut version: Option<String> = None;
        let mut code_end: usize = bytes.len();
        let mut i: usize = 0;
        assert(views.skip(0) =~= views);
        while i < strings.len()
            invariant_except_break
                version is None,
                code_end == bytes@.len(),
            invariant
                views == strings@.map_values(|s: UsseString| string_view(s)),
                views == ascii_runs(bytes@, 0, 8),
                i <= strings@.len(),
                first_version(views) == first_version(views.skip(i as int)),
            ensures
                (version is None && i == strings@.len() && code_end == bytes@.len())
                || (i < strings@.len() && version is Some && version->0@ == views[i as int].1
                    && code_end == views[i as int].0 && first_version(views) == Some(views[i as int])),
            decreases strings.len() - i,
        {
            assert(views.skip(i as int).drop_first() =~= views.skip(i + 1));
            assert(views.skip(i as int)[0] == views[i as int]);
            if starts_with(strings[i].value.as_str(), "RenderServerVersion:") {
                version = Some(strings[i].value.clone());
                code_end = strings[i].offset;
                break;
            }
            i += 1;
        }
        proof {
            if version is None {
                assert(views.skip(i as int) =~= Seq::<(int, Seq<char>)>::empty());
            }
            // a found string lies inside the blob
            if version is Some {
                lemma_runs_in_bounds(bytes@, 0, 8);
                assert(views[i as int].0 < bytes@.len());
            }
        }
        let mut words: Vec<UsseWord> = Vec::new();
        let mut off = code_start;
        let ghost count = word_count(code_start as int, code_end as int);
        while off < code_end && code_end - off >= 4
            invariant
                bytes@.len() == bytes.len(),
                code_end <= bytes@.len(),
                code_start <= off,
                (off - code_start) % 4 == 0,
                words@.len() == (off - code_start) / 4,
                off <= code_end || off == code_start,
                forall|k: int| 0 <= k < words@.len() ==> word_spec(bytes@, code_start as int, k, #[trigger] words@[k]),
            decreases bytes.len() - off,
        {
            let raw = read_le32(bytes, off);
            words.push(UsseWord { offset: off, raw, lo: (raw % 65536) as u16, hi: (raw / 65536) as u16 });
            off += 4;
        }
        assert(words@.len() == word_count(code_start as int, code_end as int));
        proof {
            assert forall|k: int| 0 <= k < words@.len() implies #[trigger] words@[k].offset + 4 <= code_end by {
                assert(word_spec(bytes@, code_start as int, k, words@[k]));
            }
            assert forall|j: int| 0 <= j < strings@.len() && has_version_marker(strings@[j].value@)
                && (forall|k: int| 0 <= k < j ==> !has_version_marker(#[trigger] strings@[k].value@))
                implies code_end == strings@[j].offset by {
                assert forall|k: int| 0 <= k < j implies !has_version_marker(#[trigger] views[k].1) by {
                    assert(views[k] == string_view(strings@[k]));
                    assert(!has_version_marker(strings@[k].value@));
                }
                assert(views[j] == string_view(strings@[j]));
                lemma_code_end_at_version(bytes@, j);
            }
            if version is Some {
                lemma_first_version_marked(views);
                assert(views[i as int] == string_view(strings@[i as int]));
                assert(has_version_marker(strings@[i as int].value@));
            }
        }
        let ghost found = version is Some;
        let ghost sv = strings@;
        let result = Self {
            base_addr,
            byte_len: bytes.len(),
            code_start,
            code_end,
            words,
            strings,
            render_server_version: version,
        };
        proof {
            if found {
                assert(result.strings@ == sv);
                assert(has_version_marker(result.strings@[i as int].value@));
            }
        }
        result
    }
}

proof fn lemma_runs_in_bounds(bytes: Seq<u8>, i: int, min_len: int)
    requires
        0 <= i,
    ensures
        forall|k: int| 0 <= k < ascii_runs(bytes, i, min_len).len()
            ==> #[trigger] ascii_runs(bytes, i, min_len)[k].0 < bytes.len(),
    decreases bytes.len() - i, 1int,
{
    let r = ascii_runs(bytes, i, min_len);
    if 0 <= i < bytes.len() {
        if !printable(bytes[i]) {
            lemma_runs_in_bounds(bytes, i + 1, min_len);
            assert(r == ascii_runs(bytes, i + 1, min_len));
        } else {
            let e = run_end(bytes, i);
            lemma_run_end(bytes, i);
            let rest = if i < e <= bytes.len() { ascii_runs(bytes, e, min_len) } else { Seq::empty() };
            if i < e <= bytes.len() {
                lemma_runs_in_bounds(bytes, e, min_len);
            }
            assert forall|k: int| 0 <= k < rest.len() implies #[trigger] rest[k].0 < bytes.len() by {
                if i < e <= bytes.len() {
                    assert(rest[k] == ascii_runs(bytes, e, min_len)[k]);
                }
            }
            if e - i >= min_len {
                assert(r == seq![(i, ascii_chars(bytes.subrange(i, e)))] + rest);
                assert forall|k: int| 0 <= k < r.len() implies #[trigger] r[k].0 < bytes.len() by {
                    if k > 0 {
                        assert(r[k] == rest[k - 1]);
                    }
                }
            } else {
                assert(r == rest);
            }
        }
    }
}

/// The tag that opens a runtime block.
pub const RUNTIME_BLOCK_TAG: u32 = 0xCAFE_BABE;

/// Number of preview words a block at `off` keeps: its length word capped at
/// 0x100, and no more than whole words remain in the buffer.
pub open spec fn block_word_count(bytes: Seq<u8>, off: int) -> int {
    let want = if le32(bytes, off + 4) < 0x100 { le32(bytes, off + 4) } else { 0x100 };
    let fit = (bytes.len() - off) / 4;
    if want < fit { want } else { fit }
}

/// `b` is the block tagged at byte `off` of a buffer loaded at `base`.
pub open spec fn block_spec(bytes: Seq<u8>, base: u32, off: int, b: RserverBlock) -> bool {
    &&& b.addr == vstd::wrapping::u32_specs::wrapping_add(base, off as u32)
    &&& b.offset == off
    &&& b.len_words == le32(bytes, off + 4)
    &&& b.words@.len() == block_word_count(bytes, off)
    &&& forall|k: int| 0 <= k < b.words@.len() ==> #[trigger] b.words@[k] == le32(bytes, off + 4 * k)
}

/// Offsets of tagged blocks when scanning from `off`: the scan steps by a
/// word, and past the length word of each block it finds.
pub open spec fn block_offsets(bytes: Seq<u8>, off: int) -> Seq<int>
    decreases bytes.len() - off,
{
    if off < 0 || off + 8 > bytes.len() {
        Seq::empty()
    } else if le32(bytes, off) == RUNTIME_BLOCK_TAG {
        seq![off] + block_offsets(bytes, off + 8)
    } else {
        block_offsets(bytes, off + 4)
    }
}

impl UsseProgram {
    /// Scan runtime memory loaded at `base_addr` for tagged blocks.
    pub fn scan_runtime_blocks(base_addr: u32, bytes: &[u8]) -> (out: Vec<RserverBlock>)
        ensures
            out@.len() == block_offsets(bytes@, 0).len(),
            forall|i: int| 0 <= i < out@.len() ==> block_spec(bytes@, base_addr, block_offsets(bytes@, 0)[i], #[trigger] out@[i]),
    {
        assert(bytes@.len() == bytes.len());
        let mut out: Vec<RserverBlock> = Vec::new();
        let mut off: usize = 0;
        while off < bytes.len() && bytes.len() - off >= 8
            invariant
                bytes@.len() == bytes.len(),
                off <= bytes@.len(),
                out@.len() + block_offsets(bytes@, off as int).len() == block_offsets(bytes@, 0).len(),
                forall|i: int| 0 <= i < out@.len() ==> block_offsets(bytes@, 0)[i] == #[trigger] out@[i].offset,
                forall|i: int| 0 <= i < block_offsets(bytes@, off as int).len()
                    ==> block_offsets(bytes@, 0)[out@.len() + i] == #[trigger] block_offsets(bytes@, off as int)[i],
                forall|i: int| 0 <= i < out@.len() ==> block_spec(bytes@, base_addr, #[trigger] out@[i].offset as int, out@[i]),
            decreases bytes.len() - off,
        {
            let word = read_le32(bytes, off);
            if word == RUNTIME_BLOCK_TAG {
                let len_words = read_le32(bytes, off + 4);
                let max_words: usize = if len_words < 0x100 { len_words as usize } else { 0x100 };
                let mut words: Vec<u32> = Vec::new();
                let mut i: usize = 0;
                while i < max_words
                    invariant
                        bytes@.len() == bytes.len(),
                        off + 8 <= bytes@.len(),
                        max_words <= 0x100,
                        i <= max_words,
                        words@.len() == i,
                        i <= (bytes@.len() - off) / 4,
                        forall|k: int| 0 <= k < i ==> #[trigger] words@[k] == le32(bytes@, off + 4 * k),
                    ensures
                        words@.len() == if max_words < (bytes@.len() - off) / 4 { max_words as int } else { (bytes@.len() - off) / 4 },
                        forall|k: int| 0 <= k < words@.len() ==> #[trigger] words@[k] == le32(bytes@, off + 4 * k),
                    decreases max_words - i,
                {
                    let woff = off + i * 4;
                    if woff > bytes.len() - 4 {
                        break;
                    }
                    words.push(read_le32(bytes, woff));
                    i += 1;
                }
                let block = RserverBlock {
                    addr: base_addr.wrapping_add(off as u32),
                    offset: off,
                    len_words,
                    words,
                };
                let ghost before = out@;
                out.push(block);
                proof {
                    assert(block_offsets(bytes@, off as int) == seq![off as int] + block_offsets(bytes@, off + 8));
                    assert forall|i: int| 0 <= i < block_offsets(bytes@, off + 8).len()
                        implies block_offsets(bytes@, 0)[out@.len() + i] == #[trigger] block_offsets(bytes@, off + 8)[i] by {
                        assert(block_offsets(bytes@, off + 8)[i] == block_offsets(bytes@, off as int)[i + 1]);
                    }
                    assert(block_offsets(bytes@, 0)[before.len() as int] == block_offsets(bytes@, off as int)[0]);
                }
                off += 8;
            } else {
                off += 4;
            }
        }
        proof {
            assert(block_offsets(bytes@, off as int).len() == 0);
            assert forall|i: int| 0 <= i < out@.len() implies block_spec(bytes@, base_addr, block_offsets(bytes@, 0)[i], #[trigger] out@[i]) by {
                assert(block_spec(bytes@, base_addr, out@[i].offset as int, out@[i]));
            }
        }
        out
    }
}

/// Words the walker executes from `pc` with `budget`, unless halted.
pub open spec fn steps_taken(halted: bool, pc: int, len: int, budget: int) -> int {
    if halted {
        0
    } else {
        let remaining = if pc < len { len - pc } else { 0 };
        if budget <= remaining { budget } else { remaining }
    }
}

/// `after` is the walker's state after `step_placeholder` with `budget`
/// from `before` over a program of `words`: it executes `steps_taken`
/// words, leaving the last one in register 0, and halts when it runs out of
/// words with budget left.
pub open spec fn step_post(before: UsseVm, after: UsseVm, words: Seq<UsseWord>, budget: int) -> bool {
    let n = steps_taken(before.halted, before.pc_word as int, words.len() as int, budget);
    &&& after.pc_word == before.pc_word + n
    &&& after.scalar_regs@ == (if n > 0 { before.scalar_regs@.update(0, words[before.pc_word + n - 1].raw) } else { before.scalar_regs@ })
    &&& after.predicate == before.predicate
    &&& after.halted == (before.halted || budget > n)
    &&& after.executed_words == before.executed_words + n
}

impl UsseProgram {
    /// Walk up to `budget` words of the stream, recording each one in
    /// register 0. Opcode semantics are not modelled.
    pub fn step_placeholder(&self, vm: &mut UsseVm, budget: usize)
        requires
            old(vm).executed_words + budget <= usize::MAX,
        ensures
            step_post(*old(vm), *final(vm), self.words@, budget as int),
    {
        let ghost start = *vm;
        let mut left = budget;
        while left > 0 && !vm.halted
            invariant_except_break
                !start.halted ==> !vm.halted,
            invariant
                left <= budget,
                vm.predicate == start.predicate,
                start.halted ==> left == budget && vm.halted && vm.pc_word == start.pc_word
                    && vm.executed_words == start.executed_words && vm.scalar_regs@ == start.scalar_regs@,
                !start.halted ==> vm.pc_word == start.pc_word + (budget - left),
                !start.halted ==> vm.executed_words == start.executed_words + (budget - left),
                start.executed_words + budget <= usize::MAX,
                !start.halted && budget - left > 0 ==> vm.pc_word <= self.words@.len(),
                !start.halted && budget - left > 0 ==> vm.scalar_regs@ == start.scalar_regs@.update(0, self.words@[vm.pc_word - 1].raw),
                !start.halted && budget == left ==> vm.scalar_regs@ == start.scalar_regs@,
            ensures
                step_post(start, *vm, self.words@, budget as int),
            decreases left,
        {
            if vm.pc_word >= self.words.len() {
                vm.halted = true;
                break;
            }
            let raw = self.words[vm.pc_word].raw;
            vm.scalar_regs[0] = raw;
            vm.pc_word += 1;
            vm.executed_words += 1;
            left -= 1;
            proof {
                assert(vm.scalar_regs@ =~= start.scalar_regs@.update(0, self.words@[vm.pc_word - 1].raw));
            }
        }
    }
}

/// Walking with budget `a` and then `b` ends in the same state as walking
/// once with budget `a + b`.
pub proof fn lemma_step_budgets_compose(vm: UsseVm, mid: UsseVm, fin: UsseVm, words: Seq<UsseWord>, a: int, b: int)
    requires
        0 <= a,
        0 <= b,
        step_post(vm, mid, words, a),
        step_post(mid, fin, words, b),
    ensures
        step_post(vm, fin, words, a + b),
{
    let n1 = steps_taken(vm.halted, vm.pc_word as int, words.len() as int, a);
    let n2 = steps_taken(mid.halted, mid.pc_word as int, words.len() as int, b);
    let n = steps_taken(vm.halted, vm.pc_word as int, words.len() as int, a + b);
    assert(n == n1 + n2);
    if n2 > 0 {
        assert(fin.scalar_regs@ =~= vm.scalar_regs@.update(0, words[vm.pc_word + n - 1].raw));
    } else if n1 > 0 {
        assert(fin.scalar_regs@ =~= vm.scalar_regs@.update(0, words[vm.pc_word + n - 1].raw));
    }
}

/// Words rendered `{:#010x}` and joined with `sep`.
pub open spec fn join_hex_words(ws: Seq<u32>, sep: Seq<char>) -> Seq<char>
    decreases ws.len(),
{
    if ws.len() == 0 {
        Seq::empty()
    } else if ws.len() == 1 {
        hex_prefixed(ws[0] as nat, 10)
    } else {
        join_hex_words(ws.drop_last(), sep) + sep + hex_prefixed(ws.last() as nat, 10)
    }
}

/// `addr={:#010x} off=0x{:04x} len_words={} preview=[..]` with up to eight
/// preview words.
pub open spec fn block_summary_spec(b: RserverBlock) -> Seq<char> {
    "addr="@ + hex_prefixed(b.addr as nat, 10) + " off=0x"@ + hex_pad(b.offset as nat, 4)
        + " len_words="@ + dec_min(b.len_words as nat) + " preview=["@
        + join_hex_words(b.words@.take(if b.words@.len() < 8 { b.words@.len() as int } else { 8 }), ","@) + "]"@
}

impl RserverBlock {
    /// One-line description of the block.
    pub fn summary(&self) -> (s: String)
        ensures
            s@ == block_summary_spec(*self),
    {
        proof {
            reveal_strlit("addr=");
            reveal_strlit(" off=0x");
            reveal_strlit(" len_words=");
            reveal_strlit(" preview=[");
            reveal_strlit(",");
            reveal_strlit("]");
        }
        let mut out = String::new();
        out.append("addr=");
        push_hex_prefixed(&mut out, self.addr as u64, 10);
        out.append(" off=0x");
        push_hex(&mut out, self.offset as u64, 4);
        out.append(" len_words=");
        push_dec(&mut out, self.len_words as u64);
        out.append(" preview=[");
        let ghost head = out@;
        let n: usize = if self.words.len() < 8 { self.words.len() } else { 8 };
        let mut i: usize = 0;
        while i < n
            invariant
                n <= self.words@.len(),
                i <= n,
                out@ == head + join_hex_words(self.words@.take(i as int), ","@),
                ","@ == seq![','],
            decreases n - i,
        {
            if i > 0 {
                out.append(",");
            }
            push_hex_prefixed(&mut out, self.words[i] as u64, 10);
            proof {
                let t = self.words@.take(i + 1);
                assert(t.drop_last() =~= self.words@.take(i as int));
                if i == 0 {
                    assert(self.words@.take(0) =~= Seq::<u32>::empty());
                }
            }
            i += 1;
        }
        out.append("]");
        out
    }
}

/// Words rendered `+0x{:04x}={:#010x}` and joined with `, `.
pub open spec fn join_offset_words(ws: Seq<UsseWord>) -> Seq<char>
    decreases ws.len(),
{
    if ws.len() == 0 {
        Seq::empty()
    } else {
        let w = ws.last();
        let item = "+0x"@ + hex_pad(w.offset as nat, 4) + "="@ + hex_prefixed(w.raw as nat, 10);
        if ws.len() == 1 { item } else { join_offset_words(ws.drop_last()) + ", "@ + item }
    }
}

/// `base={:#010x} bytes={} code=0x{:x}..0x{:x} words={} strings={}
/// version={} first=[..]` with up to six leading words.
pub open spec fn program_summary_spec(p: UsseProgram) -> Seq<char> {
    "base="@ + hex_prefixed(p.base_addr as nat, 10) + " bytes="@ + dec_min(p.byte_len as nat)
        + " code=0x"@ + hex_pad(p.code_start as nat, 0) + "..0x"@ + hex_pad(p.code_end as nat, 0)
        + " words="@ + dec_min(p.words@.len()) + " strings="@ + dec_min(p.strings@.len())
        + " version="@ + (match p.render_server_version { Some(v) => v@, None => "<unknown>"@ })
        + " first=["@ + join_offset_words(p.words@.take(if p.words@.len() < 6 { p.words@.len() as int } else { 6 })) + "]"@
}

impl UsseProgram {
    /// One-line description of the program.
    pub fn summary(&self) -> (s: String)
        ensures
            s@ == program_summary_spec(*self),
    {
        proof {
            reveal_strlit("base=");
            reveal_strlit(" bytes=");
            reveal_strlit(" code=0x");
            reveal_strlit("..0x");
            reveal_strlit(" words=");
            reveal_strlit(" strings=");
            reveal_strlit(" version=");
            reveal_strlit("<unknown>");
            reveal_strlit(" first=[");
            reveal_strlit("+0x");
            reveal_strlit("=");
            reveal_strlit(", ");
            reveal_strlit("]");
        }
        let mut out = String::new();
        out.append("base=");
        push_hex_prefixed(&mut out, self.base_addr as u64, 10);
        out.append(" bytes=");
        push_dec(&mut out, self.byte_len as u64);
        out.append(" code=0x");
        push_hex(&mut out, self.code_start as u64, 0);
        out.append("..0x");
        push_hex(&mut out, self.code_end as u64, 0);
        out.append(" words=");
        push_dec(&mut out, self.words.len() as u64);
        out.append(" strings=");
        push_dec(&mut out, self.strings.len() as u64);
        out.append(" version=");
        match &self.render_server_version {
            Some(v) => out.append(v.as_str()),
            None => out.append("<unknown>"),
        }
        out.append(" first=[");
        let ghost head = out@;
        let n: usize = if self.words.len() < 6 { self.words.len() } else { 6 };
        let mut i: usize = 0;
        while i < n
            invariant
                n <= self.words@.len(),
                i <= n,
                out@ == head + join_offset_words(self.words@.take(i as int)),
            decreases n - i,
        {
            if i > 0 {
                out.append(", ");
            }
            out.append("+0x");
            push_hex(&mut out, self.words[i].offset as u64, 4);
            out.append("=");
            push_hex_prefixed(&mut out, self.words[i].raw as u64, 10);
            proof {
                let t = self.words@.take(i + 1);
                assert(t.drop_last() =~= self.words@.take(i as int));
                assert(t.last() == self.words@[i as int]);
                if i == 0 {
                    assert(self.words@.take(0) =~= Seq::<UsseWord>::empty());
                }
            }
            i += 1;
        }
        out.append("]");
        out
    }
}

} // verus!
