//! Searches over a snapshot of guest work RAM: where a byte pattern
//! occurs, which words point into a range, the field ends of a UTF-16BE
//! string table, and the runs of non-zero blocks that may be framebuffers.
use vstd::prelude::*;
use crate::sys::eapp::bus::le_value;

verus! {

/// Whether `pat` occurs in `buf` at `p`.
pub open spec fn occurs_at(buf: Seq<u8>, pat: Seq<u8>, p: int) -> bool {
    0 <= p && p + pat.len() <= buf.len() && buf.subrange(p, p + pat.len()) == pat
}

/// The positions from `pos` on where `pat` occurs, ascending, stopping
/// once `room` have been found.
pub open spec fn hits_from(buf: Seq<u8>, pat: Seq<u8>, pos: int, room: nat) -> Seq<int>
    decreases buf.len() - pos, room,
{
    if room == 0 || pat.len() == 0 || pos < 0 || pos + pat.len() > buf.len() {
        Seq::empty()
    } else if occurs_at(buf, pat, pos) {
        seq![pos] + hits_from(buf, pat, pos + 1, (room - 1) as nat)
    } else {
        hits_from(buf, pat, pos + 1, room)
    }
}

/// The first positions of `pat` in `buf`, at most `limit` of them (at
/// least one when there is one); none for an empty pattern.
pub open spec fn pattern_hits_spec(buf: Seq<u8>, pat: Seq<u8>, limit: nat) -> Seq<int> {
    if pat.len() == 0 {
        Seq::empty()
    } else {
        hits_from(buf, pat, 0, if limit == 0 { 1 } else { limit })
    }
}

proof fn lemma_hits_from(buf: Seq<u8>, pat: Seq<u8>, pos: int, room: nat)
    requires
        pat.len() > 0,
        pos >= 0,
    ensures
        ({
            let hs = hits_from(buf, pat, pos, room);
            &&& hs.len() <= room
            &&& forall|k: int| 0 <= k < hs.len() ==> pos <= #[trigger] hs[k] && hs[k] + pat.len() <= buf.len()
                && forall|q: int| 0 <= q < pat.len() ==> buf[hs[k] + q] == pat[q]
            &&& forall|k: int, m: int| 0 <= k < m < hs.len() ==> #[trigger] hs[k] < #[trigger] hs[m]
            &&& forall|p: int| pos <= p && p + pat.len() <= buf.len()
                && (forall|q: int| 0 <= q < pat.len() ==> buf[p + q] == pat[q])
                && (hs.len() < room || (hs.len() > 0 && p <= hs.last()))
                ==> #[trigger] hs.contains(p)
        }),
    decreases buf.len() - pos, room,
{
    let hs = hits_from(buf, pat, pos, room);
    if room == 0 || pos + pat.len() > buf.len() {
    } else if occurs_at(buf, pat, pos) {
        let rest = hits_from(buf, pat, pos + 1, (room - 1) as nat);
        lemma_hits_from(buf, pat, pos + 1, (room - 1) as nat);
        assert(hs == seq![pos] + rest);
        assert forall|q: int| 0 <= q < pat.len() implies buf[pos + q] == pat[q] by {
            assert(buf.subrange(pos, pos + pat.len())[q] == buf[pos + q]);
        }
        assert forall|k: int| 0 <= k < hs.len() implies pos <= #[trigger] hs[k] && hs[k] + pat.len() <= buf.len()
            && forall|q: int| 0 <= q < pat.len() ==> buf[hs[k] + q] == pat[q] by {
            if k > 0 {
                assert(hs[k] == rest[k - 1]);
            }
        }
        assert forall|k: int, m: int| 0 <= k < m < hs.len() implies #[trigger] hs[k] < #[trigger] hs[m] by {
            assert(hs[m] == rest[m - 1]);
            if k > 0 {
                assert(hs[k] == rest[k - 1]);
            }
        }
        assert forall|p: int| pos <= p && p + pat.len() <= buf.len()
            && (forall|q: int| 0 <= q < pat.len() ==> buf[p + q] == pat[q])
            && (hs.len() < room || (hs.len() > 0 && p <= hs.last()))
            implies #[trigger] hs.contains(p) by {
            if p == pos {
                assert(hs[0] == pos);
            } else {
                if rest.len() > 0 {
                    assert(hs.last() == rest.last());
                }
                assert(rest.contains(p));
                let j = choose|j: int| 0 <= j < rest.len() && rest[j] == p;
                assert(hs[j + 1] == p);
            }
        }
    } else {
        lemma_hits_from(buf, pat, pos + 1, room);
        assert forall|p: int| pos <= p && p + pat.len() <= buf.len()
            && (forall|q: int| 0 <= q < pat.len() ==> buf[p + q] == pat[q])
            && (hs.len() < room || (hs.len() > 0 && p <= hs.last()))
            implies #[trigger] hs.contains(p) by {
            if p == pos {
                assert(buf.subrange(pos, pos + pat.len()) =~= pat);
            }
        }
    }
}

/// The hits are positions where the pattern's bytes appear, in strictly
/// ascending order, at most `limit` of them (one when `limit` is 0), and
/// none is skipped: every occurrence is a hit unless the hits ran out of
/// room before reaching it. An empty pattern has no hits.
pub proof fn lemma_pattern_hits(buf: Seq<u8>, pat: Seq<u8>, limit: nat)
    ensures
        ({
            let hs = pattern_hits_spec(buf, pat, limit);
            let room: nat = if limit == 0 { 1 } else { limit };
            &&& pat.len() == 0 ==> hs.len() == 0
            &&& hs.len() <= room
            &&& forall|k: int| 0 <= k < hs.len() ==> 0 <= #[trigger] hs[k] && hs[k] + pat.len() <= buf.len()
                && forall|q: int| 0 <= q < pat.len() ==> buf[hs[k] + q] == pat[q]
            &&& forall|k: int, m: int| 0 <= k < m < hs.len() ==> #[trigger] hs[k] < #[trigger] hs[m]
            &&& pat.len() > 0 ==> forall|p: int| 0 <= p && p + pat.len() <= buf.len()
                && (forall|q: int| 0 <= q < pat.len() ==> buf[p + q] == pat[q])
                && (hs.len() < room || (hs.len() > 0 && p <= hs.last()))
                ==> #[trigger] hs.contains(p)
        }),
{
    if pat.len() > 0 {
        lemma_hits_from(buf, pat, 0, if limit == 0 { 1 } else { limit });
    }
}

fn matches_at(buf: &[u8], pat: &[u8], p: usize) -> (r: bool)
    requires
        p + pat.len() <= buf.len(),
    ensures
        r == occurs_at(buf@, pat@, p as int),
{
    let mut k: usize = 0;
    while k < pat.len()
        invariant
            k <= pat@.len(),
            p + pat.len() <= buf.len(),
            forall|q: int| 0 <= q < k ==> buf@[p + q] == pat@[q],
        decreases pat@.len() - k,
    {
        if buf[p + k] != pat[k] {
            proof {
                if occurs_at(buf@, pat@, p as int) {
                    assert(buf@.subrange(p as int, p + pat@.len())[k as int] == buf@[p + k]);
                }
            }
            return false;
        }
        k += 1;
    }
    assert(buf@.subrange(p as int, p + pat@.len()) =~= pat@);
    true
}

/// Where `pat` occurs in `buf` (see `pattern_hits_spec`).
pub fn pattern_hits(buf: &[u8], pat: &[u8], limit: usize) -> (hits: Vec<usize>)
    ensures
        hits@.map_values(|h: usize| h as int) == pattern_hits_spec(buf@, pat@, limit as nat),
{
    let mut hits: Vec<usize> = Vec::new();
    if pat.len() == 0 {
        return hits;
    }
    let room0: usize = if limit == 0 { 1 } else { limit };
    let mut room = room0;
    let mut pos: usize = 0;
    while room > 0 && pat.len() <= buf.len() && pos <= buf.len() - pat.len()
        invariant
            pat@.len() > 0,
            pos <= buf@.len(),
            room <= room0,
            hits@.map_values(|h: usize| h as int) + hits_from(buf@, pat@, pos as int, room as nat)
                == hits_from(buf@, pat@, 0, room0 as nat),
        decreases buf@.len() - pos,
    {
        let ghost before = hits@.map_values(|h: usize| h as int);
        if matches_at(buf, pat, pos) {
            hits.push(pos);
            room -= 1;
            assert(hits@.map_values(|h: usize| h as int) =~= before.push(pos as int));
            assert(before + hits_from(buf@, pat@, pos as int, (room + 1) as nat)
                =~= hits@.map_values(|h: usize| h as int) + hits_from(buf@, pat@, pos + 1, room as nat));
        }
        pos += 1;
    }
    proof {
        assert(hits_from(buf@, pat@, pos as int, room as nat) =~= Seq::<int>::empty());
        assert(hits@.map_values(|h: usize| h as int) + Seq::<int>::empty() =~= hits@.map_values(|h: usize| h as int));
    }
    hits
}

/// Whether the `block` bytes at `i` hold a non-zero byte.
pub open spec fn block_nonzero(buf: Seq<u8>, i: int, block: int) -> bool {
    exists|k: int| i <= k < i + block && k < buf.len() && buf[k] != 0
}

/// The end of the run of non-zero blocks starting at `i`.
pub open spec fn run_end(buf: Seq<u8>, i: int, block: int) -> int
    decreases buf.len() + block - i,
{
    if block <= 0 || i < 0 || i >= buf.len() || !block_nonzero(buf, i, block) {
        i
    } else {
        run_end(buf, i + block, block)
    }
}

/// The runs of non-zero blocks from `i` on, as (offset, length).
pub open spec fn regions_from(buf: Seq<u8>, i: int, block: int) -> Seq<(int, int)>
    decreases buf.len() + block - i,
{
    if block <= 0 || i < 0 || i >= buf.len() {
        Seq::empty()
    } else if !block_nonzero(buf, i, block) {
        regions_from(buf, i + block, block)
    } else {
        let e = run_end(buf, i, block);
        if e <= i || e > buf.len() {
            Seq::empty()
        } else {
            seq![(i, e - i)] + regions_from(buf, e, block)
        }
    }
}

proof fn lemma_run_end(buf: Seq<u8>, i: int, block: int)
    requires
        block > 0,
        0 <= i <= buf.len(),
        i % block == (buf.len() as int) % block,
    ensures
        i <= run_end(buf, i, block) <= buf.len(),
        run_end(buf, i, block) % block == (buf.len() as int) % block,
        i < buf.len() && block_nonzero(buf, i, block) ==> run_end(buf, i, block) > i,
    decreases buf.len() - i,
{
    if i < buf.len() && block_nonzero(buf, i, block) {
        assert(i + block <= buf.len()) by {
            vstd::arithmetic::div_mod::lemma_fundamental_div_mod(i, block);
            vstd::arithmetic::div_mod::lemma_fundamental_div_mod(buf.len() as int, block);
            assert(i + block <= buf.len()) by (nonlinear_arith)
                requires
                    i < buf.len(),
                    block > 0,
                    i == block * (i / block) + i % block,
                    buf.len() == block * ((buf.len() as int) / block) + (buf.len() as int) % block,
                    i % block == (buf.len() as int) % block,
                    0 <= i % block < block;
        }
        assert((i + block) % block == i % block) by {
            vstd::arithmetic::div_mod::lemma_mod_add_multiples_vanish(i, block);
        }
        lemma_run_end(buf, i + block, block);
    }
}

fn block_has_nonzero(buf: &[u8], i: usize, block: usize) -> (r: bool)
    requires
        i + block <= buf.len(),
    ensures
        r == block_nonzero(buf@, i as int, block as int),
{
    let mut k = i;
    while k < i + block
        invariant
            i <= k <= i + block,
            i + block <= buf.len(),
            forall|q: int| i <= q < k ==> buf@[q] == 0,
        decreases i + block - k,
    {
        if buf[k] != 0 {
            return true;
        }
        k += 1;
    }
    false
}

/// The runs of consecutive `block`-byte blocks holding a non-zero byte,
/// as (offset, length), in address order.
pub fn nonzero_regions(buf: &[u8], block: usize) -> (regions: Vec<(usize, usize)>)
    requires
        block > 0,
        (buf@.len() as int) % (block as int) == 0,
    ensures
        regions@.map_values(|r: (usize, usize)| (r.0 as int, r.1 as int)) == regions_from(buf@, 0, block as int),
{
    let size = buf.len();
    let mut regions: Vec<(usize, usize)> = Vec::new();
    let mut i: usize = 0;
    proof {
        vstd::arithmetic::div_mod::lemma_small_mod(0, block as nat);
    }
    while i < size
        invariant
            size == buf@.len(),
            block > 0,
            (size as int) % (block as int) == 0,
            i <= size,
            (i as int) % (block as int) == 0,
            regions@.map_values(|r: (usize, usize)| (r.0 as int, r.1 as int)) + regions_from(buf@, i as int, block as int)
                == regions_from(buf@, 0, block as int),
        decreases size - i,
    {
        let ghost before = regions@.map_values(|r: (usize, usize)| (r.0 as int, r.1 as int));
        let ghost i0 = i as int;
        proof {
            lemma_run_end(buf@, i as int, block as int);
        }
        assert(i + block <= size) by {
            vstd::arithmetic::div_mod::lemma_fundamental_div_mod(i as int, block as int);
            vstd::arithmetic::div_mod::lemma_fundamental_div_mod(size as int, block as int);
            assert(i + block <= size) by (nonlinear_arith)
                requires
                    i < size,
                    block > 0,
                    i == (block as int) * ((i as int) / (block as int)),
                    size == (block as int) * ((size as int) / (block as int));
        }
        if !block_has_nonzero(buf, i, block) {
            proof {
                vstd::arithmetic::div_mod::lemma_mod_add_multiples_vanish(i as int, block as int);
            }
            i += block;
        } else {
            let start = i;
            let ghost e = run_end(buf@, i as int, block as int);
            while i < size && block_has_nonzero_guarded(buf, i, block)
                invariant
                    size == buf@.len(),
                    block > 0,
                    (size as int) % (block as int) == 0,
                    start <= i <= size,
                    (i as int) % (block as int) == 0,
                    run_end(buf@, i as int, block as int) == e,
                decreases size - i,
            {
                proof {
                    vstd::arithmetic::div_mod::lemma_mod_add_multiples_vanish(i as int, block as int);
                }
                i += block;
            }
            assert(i == e);
            regions.push((start, i - start));
            assert(regions@.map_values(|r: (usize, usize)| (r.0 as int, r.1 as int)) =~= before.push((i0, e - i0)));
            assert(before + regions_from(buf@, i0, block as int)
                =~= regions@.map_values(|r: (usize, usize)| (r.0 as int, r.1 as int)) + regions_from(buf@, e, block as int));
        }
    }
    proof {
        assert(regions_from(buf@, i as int, block as int) =~= Seq::<(int, int)>::empty());
        assert(regions@.map_values(|r: (usize, usize)| (r.0 as int, r.1 as int)) + Seq::<(int, int)>::empty()
            =~= regions@.map_values(|r: (usize, usize)| (r.0 as int, r.1 as int)));
    }
    regions
}

/// `block_has_nonzero` where the block lies inside the buffer.
fn block_has_nonzero_guarded(buf: &[u8], i: usize, block: usize) -> (r: bool)
    requires
        block > 0,
        i < buf@.len(),
        (i as int) % (block as int) == 0,
        (buf@.len() as int) % (block as int) == 0,
    ensures
        r == block_nonzero(buf@, i as int, block as int),
        i + block <= buf@.len(),
{
    assert(i + block <= buf@.len()) by {
        vstd::arithmetic::div_mod::lemma_fundamental_div_mod(i as int, block as int);
        vstd::arithmetic::div_mod::lemma_fundamental_div_mod(buf@.len() as int, block as int);
        assert(i + block <= buf@.len()) by (nonlinear_arith)
            requires
                i < buf@.len(),
                block > 0,
                i == (block as int) * ((i as int) / (block as int)),
                buf@.len() == (block as int) * ((buf@.len() as int) / (block as int));
    }
    block_has_nonzero(buf, i, block)
}

/// `sorted` with `r` placed after every entry at least as long.
pub open spec fn insert_by_len(sorted: Seq<(usize, usize)>, r: (usize, usize)) -> Seq<(usize, usize)>
    decreases sorted.len(),
{
    if sorted.len() == 0 {
        seq![r]
    } else if sorted.last().1 >= r.1 {
        sorted.push(r)
    } else {
        insert_by_len(sorted.drop_last(), r).push(sorted.last())
    }
}

/// The regions of at least `min_len` bytes, longest first, stably.
pub open spec fn large_by_size(regions: Seq<(usize, usize)>, min_len: usize) -> Seq<(usize, usize)>
    decreases regions.len(),
{
    if regions.len() == 0 {
        Seq::empty()
    } else {
        let rest = large_by_size(regions.drop_last(), min_len);
        if regions.last().1 >= min_len { insert_by_len(rest, regions.last()) } else { rest }
    }
}

/// Insert `r` after every entry at least as long (see `insert_by_len`).
fn insert_region(sorted: &mut Vec<(usize, usize)>, r: (usize, usize))
    ensures
        final(sorted)@ == insert_by_len(old(sorted)@, r),
{
    let mut p = sorted.len();
    assert(sorted@.take(p as int) =~= sorted@ && sorted@.skip(p as int) =~= Seq::<(usize, usize)>::empty());
    while p > 0 && sorted[p - 1].1 < r.1
        invariant
            p <= sorted@.len(),
            insert_by_len(sorted@, r) == insert_by_len(sorted@.take(p as int), r) + sorted@.skip(p as int),
        decreases p,
    {
        proof {
            let t = sorted@.take(p as int);
            assert(t.drop_last() =~= sorted@.take(p - 1));
            assert(sorted@.skip(p - 1) =~= seq![t.last()] + sorted@.skip(p as int));
            assert(insert_by_len(t.drop_last(), r).push(t.last()) + sorted@.skip(p as int)
                =~= insert_by_len(t.drop_last(), r) + sorted@.skip(p - 1));
        }
        p -= 1;
    }
    proof {
        let t = sorted@.take(p as int);
        if p > 0 {
            assert(insert_by_len(t, r) == t.push(r));
        } else {
            assert(t =~= Seq::<(usize, usize)>::empty());
        }
        assert(insert_by_len(sorted@, r) =~= sorted@.take(p as int).push(r) + sorted@.skip(p as int));
        assert(sorted@.insert(p as int, r) =~= sorted@.take(p as int).push(r) + sorted@.skip(p as int));
    }
    sorted.insert(p, r);
}

/// The regions of at least `min_len` bytes, longest first; equal lengths
/// keep their order.
pub fn large_regions_by_size(regions: &Vec<(usize, usize)>, min_len: usize) -> (out: Vec<(usize, usize)>)
    ensures
        out@ == large_by_size(regions@, min_len),
{
    let mut out: Vec<(usize, usize)> = Vec::new();
    let mut k: usize = 0;
    while k < regions.len()
        invariant
            k <= regions@.len(),
            out@ == large_by_size(regions@.take(k as int), min_len),
        decreases regions@.len() - k,
    {
        proof {
            assert(regions@.take(k + 1).drop_last() =~= regions@.take(k as int));
        }
        if regions[k].1 >= min_len {
            insert_region(&mut out, regions[k]);
        }
        k += 1;
    }
    assert(regions@.take(regions@.len() as int) =~= regions@);
    out
}

/// What a region's length says about it as a 320 x 240 framebuffer.
#[derive(Debug, Clone, Copy, PartialEq, Eq, Structural)]
pub enum FramebufferHint {
    Rgb565,
    Rgba8888,
    A8,
}

pub fn framebuffer_hint(len: usize) -> (h: Option<FramebufferHint>)
    ensures
        h == if len == 153600 {
            Some(FramebufferHint::Rgb565)
        } else if len == 307200 {
            Some(FramebufferHint::Rgba8888)
        } else if len == 76800 {
            Some(FramebufferHint::A8)
        } else {
            None
        },
{
    if len == 153600 {
        Some(FramebufferHint::Rgb565)
    } else if len == 307200 {
        Some(FramebufferHint::Rgba8888)
    } else if len == 76800 {
        Some(FramebufferHint::A8)
    } else {
        None
    }
}

/// The non-zero little-endian words at offsets `j, j + 4, ...` below
/// `end`, at most `room` of them.
pub open spec fn nonzero_words_from(buf: Seq<u8>, j: int, end: int, room: nat) -> Seq<u32>
    decreases end - j, room,
{
    if room == 0 || j < 0 || j + 4 > end || end > buf.len() {
        Seq::empty()
    } else if le_value(buf, j, 4) != 0 {
        seq![le_value(buf, j, 4) as u32] + nonzero_words_from(buf, j + 4, end, (room - 1) as nat)
    } else {
        nonzero_words_from(buf, j + 4, end, room)
    }
}

fn le_word(buf: &[u8], j: usize) -> (w: u32)
    requires
        j + 4 <= buf@.len(),
    ensures
        w == le_value(buf@, j as int, 4),
{
    let w = buf[j] as u32 + 256 * (buf[j + 1] as u32 + 256 * (buf[j + 2] as u32 + 256 * buf[j + 3] as u32));
    proof {
        reveal_with_fuel(le_value, 5);
    }
    w
}

/// The first four non-zero words of the region (`off`, `len`).
pub fn region_sample(buf: &[u8], off: usize, len: usize) -> (words: Vec<u32>)
    requires
        off + len <= buf.len(),
    ensures
        words@ == nonzero_words_from(buf@, off as int, off + len, 4),
{
    let end = off + len;
    let mut words: Vec<u32> = Vec::new();
    let mut room: usize = 4;
    let mut j = off;
    while room > 0 && end >= 4 && j <= end - 4
        invariant
            end == off + len,
            end <= buf@.len(),
            off <= j,
            room <= 4,
            words@ + nonzero_words_from(buf@, j as int, end as int, room as nat)
                == nonzero_words_from(buf@, off as int, end as int, 4),
        decreases end - j,
    {
        let w = le_word(buf, j);
        let ghost before = words@;
        if w != 0 {
            words.push(w);
            room -= 1;
            assert(before + nonzero_words_from(buf@, j as int, end as int, (room + 1) as nat)
                =~= words@ + nonzero_words_from(buf@, j + 4, end as int, room as nat));
        }
        j += 4;
    }
    proof {
        assert(nonzero_words_from(buf@, j as int, end as int, room as nat) =~= Seq::<u32>::empty());
        assert(words@ + Seq::<u32>::empty() =~= words@);
    }
    words
}

/// The first position `p >= start` where a UTF-16BE character with high
/// byte 0 and low byte in `lows` begins (tested on byte pairs).
pub open spec fn pair_end_from(buf: Seq<u8>, p: int, lows: Set<u8>) -> Option<int>
    decreases buf.len() - p,
{
    if p < 0 || p + 2 > buf.len() {
        None
    } else if buf[p] == 0 && lows.contains(buf[p + 1]) {
        Some(p)
    } else {
        pair_end_from(buf, p + 1, lows)
    }
}

/// Where the string-table field starting at `start` ends: the first
/// 0x00 byte followed by a tab, a newline or another 0x00.
pub fn field_end(buf: &[u8], start: usize) -> (r: Option<usize>)
    ensures
        r matches Some(p) ==> pair_end_from(buf@, start as int, set![9u8, 10u8, 0u8]) == Some(p as int),
        r is None ==> pair_end_from(buf@, start as int, set![9u8, 10u8, 0u8]) is None,
{
    pair_end(buf, start, 9, 10, 0)
}

/// Where the first 0x00 byte followed by `delim` lies at or after `start`.
pub fn delim_end(buf: &[u8], start: usize, delim: u8) -> (r: Option<usize>)
    ensures
        r matches Some(p) ==> pair_end_from(buf@, start as int, set![delim]) == Some(p as int),
        r is None ==> pair_end_from(buf@, start as int, set![delim]) is None,
{
    assert(set![delim, delim, delim] =~= set![delim]);
    pair_end(buf, start, delim, delim, delim)
}

fn pair_end(buf: &[u8], start: usize, a: u8, b: u8, c: u8) -> (r: Option<usize>)
    ensures
        r matches Some(p) ==> pair_end_from(buf@, start as int, set![a, b, c]) == Some(p as int),
        r is None ==> pair_end_from(buf@, start as int, set![a, b, c]) is None,
{
    let mut p = start;
    while p < buf.len() && buf.len() - p >= 2
        invariant
            start <= p,
            pair_end_from(buf@, start as int, set![a, b, c]) == pair_end_from(buf@, p as int, set![a, b, c]),
        decreases buf@.len() - p,
    {
        let lo = buf[p + 1];
        if buf[p] == 0 && (lo == a || lo == b || lo == c) {
            return Some(p);
        }
        p += 1;
    }
    None
}

/// The words at offsets `off, off + 4, ...` (while four bytes remain) whose
/// value lies in `[start, end)`, as (offset, value), at most `room`.
pub open spec fn refs_from(buf: Seq<u8>, off: int, start: u32, end: u32, room: nat) -> Seq<(usize, u32)>
    decreases buf.len() - off, room,
{
    if room == 0 || off < 0 || off + 3 >= buf.len() {
        Seq::empty()
    } else if start <= le_value(buf, off, 4) < end {
        seq![(off as usize, le_value(buf, off, 4) as u32)] + refs_from(buf, off + 4, start, end, (room - 1) as nat)
    } else {
        refs_from(buf, off + 4, start, end, room)
    }
}

/// The words of `buf` pointing into `[start, end)`, as (offset, value):
/// the first `limit` (at least one when there is one).
pub fn pointer_refs(buf: &[u8], start: u32, end: u32, limit: usize) -> (refs: Vec<(usize, u32)>)
    ensures
        refs@ == refs_from(buf@, 0, start, end, if limit == 0 { 1 } else { limit as nat }),
{
    let room0: usize = if limit == 0 { 1 } else { limit };
    let mut room = room0;
    let mut refs: Vec<(usize, u32)> = Vec::new();
    let mut off: usize = 0;
    while room > 0 && buf.len() >= 3 && off < buf.len() - 3
        invariant
            room <= room0,
            refs@ + refs_from(buf@, off as int, start, end, room as nat) == refs_from(buf@, 0, start, end, room0 as nat),
        decreases buf@.len() - off,
    {
        let v = le_word(buf, off);
        let ghost before = refs@;
        if start <= v && v < end {
            refs.push((off, v));
            room -= 1;
            assert(before + refs_from(buf@, off as int, start, end, (room + 1) as nat)
                =~= refs@ + refs_from(buf@, off + 4, start, end, room as nat));
        }
        off += 4;
    }
    proof {
        assert(refs_from(buf@, off as int, start, end, room as nat) =~= Seq::<(usize, u32)>::empty());
        assert(refs@ + Seq::<(usize, u32)>::empty() =~= refs@);
    }
    refs
}

} // verus!
