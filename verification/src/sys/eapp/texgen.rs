//! Heuristics that find the text a guest font renderer is drawing: which
//! UTF-16 units look like menu text, how strongly a memory window reads as
//! a string, and the glyph column count a font object most likely uses.
use vstd::prelude::*;
use crate::sys::eapp::capture::{WORK_RAM_BASE, WORK_RAM_SIZE};

verus! {

/// Whether a UTF-16 unit is one the menu text uses: printable ASCII,
/// Latin-1 beyond the controls, or Greek.
pub open spec fn plausible_char(ch: u16) -> bool {
    (0x20 <= ch <= 0x7e) || (0xa0 <= ch <= 0xff) || (0x390 <= ch <= 0x3ff)
}

pub fn is_plausible_texgen_char(ch: u16) -> (b: bool)
    ensures
        b == plausible_char(ch),
{
    (0x20 <= ch && ch <= 0x7e) || (0xa0 <= ch && ch <= 0xff) || (0x390 <= ch && ch <= 0x3ff)
}

/// The little-endian UTF-16 units of `bytes`, pairwise.
pub open spec fn utf16_units(bytes: Seq<u8>) -> Seq<u16> {
    Seq::new(bytes.len() / 2, |i: int| (bytes[2 * i] + 256 * bytes[2 * i + 1]) as u16)
}

/// The units before the first zero.
pub open spec fn before_zero(units: Seq<u16>, k: int) -> Seq<u16>
    decreases units.len() - k,
{
    if k < 0 || k >= units.len() || units[k] == 0 {
        units.take(if k < 0 { 0 } else if k > units.len() { units.len() as int } else { k })
    } else {
        before_zero(units, k + 1)
    }
}

/// (score, printable) of a run of units: each plausible unit counts as
/// printable and adds 2 (ASCII) or 1; any other unit takes 2 off the
/// score, not below zero.
pub open spec fn tally(run: Seq<u16>) -> (nat, nat)
    decreases run.len(),
{
    if run.len() == 0 {
        (0, 0)
    } else {
        let (s, p) = tally(run.drop_last());
        let c = run.last();
        if plausible_char(c) {
            (s + if c <= 0x7f { 2nat } else { 1nat }, p + 1)
        } else {
            (if s >= 2 { (s - 2) as nat } else { 0nat }, p)
        }
    }
}

/// The score of a window read as a text cursor: `None` unless its first
/// unit is a plausible non-zero character and the run before the first
/// zero holds at least two plausible characters.
pub open spec fn cursor_score(bytes: Seq<u8>) -> Option<(nat, nat)> {
    let units = utf16_units(bytes);
    let t = tally(before_zero(units, 0));
    if units.len() == 0 || units[0] == 0 || !plausible_char(units[0]) || t.1 < 2 {
        None
    } else {
        Some(t)
    }
}

/// Scores `bytes` as a UTF-16 text cursor (see `cursor_score`).
pub fn texgen_cursor_score(bytes: &[u8]) -> (r: Option<(usize, usize)>)
    ensures
        r == match cursor_score(bytes@) {
            Some((s, p)) => Some((s as usize, p as usize)),
            None => None::<(usize, usize)>,
        },
{
    let ghost units = utf16_units(bytes@);
    let n = bytes.len() / 2;
    let mut score: usize = 0;
    let mut printable: usize = 0;
    let mut k: usize = 0;
    while k < n
        invariant_except_break
            n == units.len(),
            n == bytes@.len() / 2,
            bytes@.len() <= usize::MAX,
            units == utf16_units(bytes@),
            k <= n,
            before_zero(units, 0) == before_zero(units, k as int),
            (score as nat, printable as nat) == tally(units.take(k as int)),
            score <= 2 * k,
            printable <= k,
        ensures
            (score as nat, printable as nat) == tally(before_zero(units, 0)),
        decreases n - k,
    {
        let ch = (bytes[2 * k] as u16) + 256 * (bytes[2 * k + 1] as u16);
        assert(ch == units[k as int]);
        if ch == 0 {
            break;
        }
        assert(units.take(k + 1).drop_last() =~= units.take(k as int));
        if is_plausible_texgen_char(ch) {
            printable += 1;
            score += if ch <= 0x7f { 2 } else { 1 };
        } else {
            score = if score >= 2 { score - 2 } else { 0 };
        }
        k += 1;
    }
    if n == 0 {
        return None;
    }
    let first = (bytes[0] as u16) + 256 * (bytes[1] as u16);
    assert(first == units[0]);
    if first == 0 || !is_plausible_texgen_char(first) || printable < 2 {
        None
    } else {
        Some((score, printable))
    }
}

/// How often `v` occurs among the first `upto` words.
pub open spec fn occurrences(words: Seq<u32>, v: u32, upto: int) -> nat
    decreases upto,
{
    if upto <= 0 || upto > words.len() {
        0
    } else {
        occurrences(words, v, upto - 1) + if words[upto - 1] == v { 1nat } else { 0nat }
    }
}

/// Among the column counts 32 ..= `hi - 1` seen at least twice, the one
/// seen most often, the larger on a tie, with its count.
pub open spec fn best_column(words: Seq<u32>, hi: int) -> Option<(nat, u32)>
    decreases hi,
{
    if hi <= 32 {
        None
    } else {
        let prev = best_column(words, hi - 1);
        let c = occurrences(words, (hi - 1) as u32, words.len() as int);
        if c >= 2 && (prev matches Some(b) ==> c >= b.0) {
            Some((c, (hi - 1) as u32))
        } else {
            prev
        }
    }
}

/// The guessed column count is seen at least twice, and any value in
/// range seen at least twice is seen no more often, or as often and is no
/// larger.
pub proof fn lemma_best_column_is_max(words: Seq<u32>, hi: int, v: u32)
    requires
        hi <= 257,
    ensures
        best_column(words, hi) matches Some(b) ==> 32 <= b.1 < hi && b.0 >= 2
            && b.0 == occurrences(words, b.1, words.len() as int),
        (32 <= v < hi && occurrences(words, v, words.len() as int) >= 2) ==> (best_column(words, hi) matches Some(b)
            && (occurrences(words, v, words.len() as int) < b.0
                || (occurrences(words, v, words.len() as int) == b.0 && v <= b.1))),
    decreases hi,
{
    if hi > 32 {
        lemma_best_column_is_max(words, hi - 1, v);
    }
}

/// The glyph column count a font object most likely uses, from the words
/// of its glyph tables: the value in 32 ..= 256 seen most often (at least
/// twice), the larger on a tie.
pub fn guess_font_columns(words: &[u32]) -> (r: Option<u32>)
    ensures
        r == match best_column(words@, 257) {
            Some(b) => Some(b.1),
            None => None::<u32>,
        },
{
    let mut best: Option<(usize, u32)> = None;
    let mut v: u32 = 32;
    while v <= 256
        invariant
            32 <= v <= 257,
            best matches Some(b) ==> b.0 >= 2,
            best_column(words@, v as int) matches Some(b) ==> b.0 <= words@.len(),
            match best_column(words@, v as int) {
                Some(b) => best == Some((b.0 as usize, b.1)),
                None => best is None,
            },
        decreases 257 - v,
    {
        let mut count: usize = 0;
        let mut k: usize = 0;
        while k < words.len()
            invariant
                k <= words@.len(),
                count == occurrences(words@, v, k as int),
                count <= k,
            decreases words@.len() - k,
        {
            if words[k] == v {
                count += 1;
            }
            k += 1;
        }
        assert(count == occurrences(words@, ((v + 1) - 1) as u32, words@.len() as int));
        let take = match best {
            Some(b) => count >= 2 && count >= b.0,
            None => count >= 2,
        };
        if take {
            best = Some((count, v));
        }
        v += 1;
    }
    match best {
        Some(b) => Some(b.1),
        None => None,
    }
}

/// The word a font renderer's state object starts with.
pub const TEXGEN_STATE_TAG: u32 = 0x1802_3e24;

/// Whether `a` lies in guest work RAM.
pub open spec fn in_work_ram(a: u32) -> bool {
    WORK_RAM_BASE <= a < WORK_RAM_BASE + WORK_RAM_SIZE
}

pub fn is_work_ram(a: u32) -> (b: bool)
    ensures
        b == in_work_ram(a),
{
    WORK_RAM_BASE <= a && a - WORK_RAM_BASE < WORK_RAM_SIZE as u32
}

/// A non-null work-RAM pointer.
pub open spec fn ram_ptr(p: Option<u32>) -> bool {
    p matches Some(v) && v != 0 && in_work_ram(v)
}

/// Whether `ptr` is a text object: a non-null work-RAM pointer whose font
/// (word at +0x14) and state (word at +0x18) pointers are non-null
/// work-RAM pointers, the state matching `expected_state_ptr` when one is
/// given and starting with `TEXGEN_STATE_TAG` (an unreadable word counts
/// as 0), and whose font's glyph table (word at font +0x0c) is a non-null
/// work-RAM pointer.
pub open spec fn texgen_text_object(ptr: u32, font_ptr: Option<u32>, state_ptr: Option<u32>,
    expected_state_ptr: Option<u32>, state_word: Option<u32>, table_ptr: Option<u32>) -> bool {
    &&& ptr != 0 && in_work_ram(ptr)
    &&& ram_ptr(font_ptr) && ram_ptr(state_ptr)
    &&& (expected_state_ptr matches Some(e) ==> state_ptr == Some(e))
    &&& state_word == Some(TEXGEN_STATE_TAG)
    &&& ram_ptr(table_ptr)
}

fn is_ram_ptr(p: Option<u32>) -> (b: bool)
    ensures
        b == ram_ptr(p),
{
    match p {
        Some(v) => v != 0 && is_work_ram(v),
        None => false,
    }
}

/// Decides `texgen_text_object` from the words read at the object.
pub fn is_texgen_text_object(ptr: u32, font_ptr: Option<u32>, state_ptr: Option<u32>,
    expected_state_ptr: Option<u32>, state_word: Option<u32>, table_ptr: Option<u32>) -> (b: bool)
    ensures
        b == texgen_text_object(ptr, font_ptr, state_ptr, expected_state_ptr, state_word, table_ptr),
{
    if ptr == 0 || !is_work_ram(ptr) || !is_ram_ptr(font_ptr) || !is_ram_ptr(state_ptr) {
        return false;
    }
    if let Some(e) = expected_state_ptr {
        if state_ptr != Some(e) {
            return false;
        }
    }
    if state_word != Some(TEXGEN_STATE_TAG) {
        return false;
    }
    is_ram_ptr(table_ptr)
}

/// How many of the first `upto` font sub-pointers reach work RAM other
/// than the object itself.
pub open spec fn object_score(ptr: u32, subs: Seq<Option<u32>>, upto: int) -> nat
    decreases upto,
{
    if upto <= 0 || upto > subs.len() {
        0
    } else {
        object_score(ptr, subs, upto - 1) + if subs[upto - 1] matches Some(q) && in_work_ram(q) && q != ptr {
            1nat
        } else {
            0nat
        }
    }
}

/// Scores a text-object candidate by its font's sub-pointers.
pub fn texgen_object_score(ptr: u32, subs: &[Option<u32>]) -> (n: usize)
    ensures
        n == object_score(ptr, subs@, subs@.len() as int),
{
    let mut n: usize = 0;
    let mut k: usize = 0;
    while k < subs.len()
        invariant
            k <= subs@.len(),
            n == object_score(ptr, subs@, k as int),
            n <= k,
        decreases subs@.len() - k,
    {
        if let Some(q) = subs[k] {
            if is_work_ram(q) && q != ptr {
                n += 1;
            }
        }
        k += 1;
    }
    n
}

/// Among the first `upto` scored candidates, the position of the first
/// with the highest score.
pub open spec fn first_best(cands: Seq<(u32, usize)>, upto: int) -> Option<int>
    decreases upto,
{
    if upto <= 0 || upto > cands.len() {
        None
    } else {
        let prev = first_best(cands, upto - 1);
        if prev matches Some(p) && cands[upto - 1].1 <= cands[p].1 {
            prev
        } else {
            Some(upto - 1)
        }
    }
}

proof fn lemma_first_best_bounds(cands: Seq<(u32, usize)>, upto: int)
    ensures
        first_best(cands, upto) matches Some(p) ==> 0 <= p < upto,
        (0 < upto <= cands.len()) ==> first_best(cands, upto) is Some,
    decreases upto,
{
    if 0 < upto <= cands.len() {
        lemma_first_best_bounds(cands, upto - 1);
    }
}

/// The pointer of the first candidate with the highest score.
pub fn best_texgen_candidate(cands: &[(u32, usize)]) -> (r: Option<u32>)
    ensures
        r == match first_best(cands@, cands@.len() as int) {
            Some(p) => Some(cands@[p].0),
            None => None::<u32>,
        },
{
    let mut best: Option<usize> = None;
    let mut k: usize = 0;
    while k < cands.len()
        invariant
            k <= cands@.len(),
            best == match first_best(cands@, k as int) {
                Some(p) => Some(p as usize),
                None => None::<usize>,
            },
        decreases cands@.len() - k,
    {
        proof {
            lemma_first_best_bounds(cands@, k as int);
        }
        let keep = match best {
            Some(p) => cands[k].1 <= cands[p].1,
            None => false,
        };
        if !keep {
            best = Some(k);
        }
        k += 1;
    }
    proof {
        lemma_first_best_bounds(cands@, cands@.len() as int);
    }
    match best {
        Some(p) => Some(cands[p].0),
        None => None,
    }
}

/// Offsets from a seed pointer at which a text cursor is probed.
pub open spec fn probe_deltas() -> Seq<u32> {
    seq![0u32, 2, 4, 6, 8, 12, 16]
}

/// The cursors probed from `seed` for text object `text_obj`, over the
/// first `upto` deltas: none unless the seed is a non-null work-RAM
/// pointer other than the object; then each `seed + delta` (wrapping) that
/// is non-null, even, not the object and in work RAM.
pub open spec fn probes(seed: u32, text_obj: u32, upto: int) -> Seq<u32>
    decreases upto,
{
    if upto <= 0 || upto > 7 || seed == 0 || seed == text_obj || !in_work_ram(seed) {
        Seq::empty()
    } else {
        let c = ((seed + probe_deltas()[upto - 1]) % 0x1_0000_0000) as u32;
        let prev = probes(seed, text_obj, upto - 1);
        if c != 0 && c != text_obj && c % 2 == 0 && in_work_ram(c) {
            prev.push(c)
        } else {
            prev
        }
    }
}

/// The cursor addresses to probe from one seed pointer.
pub fn texgen_cursor_probes(seed: u32, text_obj: u32) -> (out: Vec<u32>)
    ensures
        out@ == probes(seed, text_obj, 7),
{
    let mut out: Vec<u32> = Vec::new();
    if seed == 0 || seed == text_obj || !is_work_ram(seed) {
        return out;
    }
    let deltas: [u32; 7] = [0, 2, 4, 6, 8, 12, 16];
    assert(deltas@ == probe_deltas());
    let mut k: usize = 0;
    while k < 7
        invariant
            k <= 7,
            deltas@ == probe_deltas(),
            seed != 0 && seed != text_obj && in_work_ram(seed),
            out@ == probes(seed, text_obj, k as int),
        decreases 7 - k,
    {
        let c = seed.wrapping_add(deltas[k]);
        assert(c == ((seed + probe_deltas()[k as int]) % 0x1_0000_0000) as u32);
        if c != 0 && c != text_obj && c % 2 == 0 && is_work_ram(c) {
            out.push(c);
        }
        k += 1;
    }
    out
}

} // verus!
