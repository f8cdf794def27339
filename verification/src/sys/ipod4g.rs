//! iPod 4G system pieces that stand on their own: boot selection, build
//! errors, and the bring-up hang watchdog's parsing and decisions.
use vstd::prelude::*;
use vstd::set_lib::lemma_len_subset;
use crate::parse::{chars_of, find_char_in, find_pair_in, parse_uint, parse_uint_range, split_char, split_once,
    split_once_pair, trim, trim_bounds};

verus! {

/// How the system starts: from the boot ROM, or with the bootloader
/// emulated over a firmware file.
pub enum BootKind<F> {
    ColdBoot,
    HLEBoot { fw_file: F },
}

/// Errors while building the system.
#[derive(Debug)]
pub enum Ipod4gBuildError {
    /// The flash dump was rejected, with the reason.
    InvalidDump(&'static str),
    /// The emulated bootloader failed, with its message.
    HleBootloader(String),
}

/// Entries kept in the watchdog's PC history.
pub const WATCHDOG_HISTORY: usize = 256;

/// A watchdog number: `0x`/`0X` then hexadecimal, or decimal, after
/// trimming whitespace; at most `u32::MAX`.
pub open spec fn watchdog_u32(s: Seq<char>) -> Option<nat> {
    let t = trim(s);
    if t.len() >= 2 && t[0] == '0' && (t[1] == 'x' || t[1] == 'X') {
        parse_uint(t.skip(2), 16, 0xffff_ffff)
    } else {
        parse_uint(t, 10, 0xffff_ffff)
    }
}

/// A watchdog range `start..end` (or `start-end`) of two watchdog numbers,
/// after trimming whitespace.
pub open spec fn watchdog_range(s: Seq<char>) -> Option<(nat, nat)> {
    let t = trim(s);
    let parts = match split_once_pair(t, '.', '.') {
        Some(p) => Some(p),
        None => split_once(t, '-'),
    };
    match parts {
        None => None,
        Some((a, b)) => match (watchdog_u32(a), watchdog_u32(b)) {
            (Some(x), Some(y)) => Some((x, y)),
            _ => None,
        },
    }
}

/// The comma-separated watchdog numbers of `s` that parse, in order.
pub open spec fn watchdog_list(pieces: Seq<Seq<char>>) -> Seq<u32>
    decreases pieces.len(),
{
    if pieces.len() == 0 {
        Seq::empty()
    } else {
        let rest = watchdog_list(pieces.drop_last());
        match watchdog_u32(pieces.last()) {
            Some(v) => rest.push(v as u32),
            None => rest,
        }
    }
}

/// The 64 KiB pages of the CPU (or COP) program counters in `h`.
pub open spec fn pages(h: Seq<(u32, u32)>, cpu: bool) -> Seq<u32> {
    h.map_values(|e: (u32, u32)| if cpu { e.0 >> 16 } else { e.1 >> 16 })
}

/// A full history whose CPU and COP counters each stay within at most
/// three pages: the guest is busy-waiting.
pub open spec fn is_tight_loop(h: Seq<(u32, u32)>) -> bool {
    h.len() == WATCHDOG_HISTORY && pages(h, true).to_set().len() > 0 && pages(h, true).to_set().len() <= 3
        && pages(h, false).to_set().len() <= 3
}

/// Parse `cs[a..b]` as a watchdog number.
fn watchdog_u32_in(cs: &[char], a: usize, b: usize) -> (r: Option<u32>)
    requires
        a <= b <= cs@.len(),
    ensures
        r matches Some(v) ==> watchdog_u32(cs@.subrange(a as int, b as int)) == Some(v as nat),
        r is None ==> watchdog_u32(cs@.subrange(a as int, b as int)) is None,
{
    let (i, j) = trim_bounds(cs, a, b);
    let ghost t = cs@.subrange(i as int, j as int);
    if j - i >= 2 && cs[i] == '0' && (cs[i + 1] == 'x' || cs[i + 1] == 'X') {
        assert(t.skip(2) =~= cs@.subrange(i + 2, j as int));
        match parse_uint_range(cs, i + 2, j, 16, 0xffff_ffff) {
            Some(v) => Some(v as u32),
            None => None,
        }
    } else {
        match parse_uint_range(cs, i, j, 10, 0xffff_ffff) {
            Some(v) => Some(v as u32),
            None => None,
        }
    }
}

/// Count (up to four) the distinct pages of `h`.
fn few_pages(h: &Vec<(u32, u32)>, cpu: bool) -> (r: bool)
    ensures
        r == (pages(h@, cpu).to_set().len() <= 3),
{
    let ghost ps = pages(h@, cpu);
    let mut seen: Vec<u32> = Vec::new();
    let mut k: usize = 0;
    while k < h.len()
        invariant
            ps == pages(h@, cpu),
            k <= h@.len(),
            seen@.no_duplicates(),
            seen@.to_set() == ps.take(k as int).to_set(),
            seen@.len() <= 3,
        decreases h@.len() - k,
    {
        let e = h[k];
        let p = if cpu { e.0 >> 16 } else { e.1 >> 16 };
        proof {
            assert(ps.take(k + 1) =~= ps.take(k as int).push(p));
            ps.take(k as int).lemma_push_to_set_commute(p);
        }
        let mut found = false;
        let mut j: usize = 0;
        while j < seen.len()
            invariant
                j <= seen@.len(),
                found == exists|q: int| 0 <= q < j && seen@[q] == p,
            decreases seen@.len() - j,
        {
            if seen[j] == p {
                found = true;
            }
            j += 1;
        }
        if !found {
            proof {
                assert(!seen@.contains(p));
                seen@.lemma_push_to_set_commute(p);
            }
            seen.push(p);
            proof {
                assert forall|a: int, b: int| 0 <= a < b < seen@.len() implies seen@[a] != seen@[b] by {
                    if b == seen@.len() - 1 {
                        assert(seen@.drop_last().contains(seen@[a]) || true);
                    }
                }
            }
            if seen.len() > 3 {
                proof {
                    seen@.unique_seq_to_set();
                    assert(ps.take(k + 1).to_set().subset_of(ps.to_set()));
                    vstd::seq_lib::seq_to_set_is_finite(ps);
                    lemma_len_subset(ps.take(k + 1).to_set(), ps.to_set());
                }
                return false;
            }
        } else {
            proof {
                let q = choose|q: int| 0 <= q < j && seen@[q] == p;
                assert(seen@.contains(p));
                assert(seen@.to_set().insert(p) =~= seen@.to_set());
            }
        }
        k += 1;
    }
    proof {
        assert(ps.take(h@.len() as int) =~= ps);
        seen@.unique_seq_to_set();
    }
    true
}

/// What a watchdog observation asks the caller to do.
#[derive(Debug, Copy, Clone, PartialEq, Eq, Structural)]
pub struct WatchdogReport {
    /// Log a periodic PC sample.
    pub sample: bool,
    /// Log the one-shot hang diagnostic.
    pub fire: bool,
}

/// The bring-up hang watchdog. Times are nanoseconds on the caller's
/// monotonic clock.
pub struct Watchdog {
    pub threshold_ns: u128,
    pub last_progress_ns: u128,
    pub last_cpu_pc: u32,
    pub last_cop_pc: u32,
    pub fired: bool,
    /// Cadence of the periodic PC sampler.
    pub sample_every_ns: Option<u128>,
    pub last_sample_ns: u128,
    /// Recent (CPU, COP) program counters, oldest first.
    pub pc_history: Vec<(u32, u32)>,
    /// When set, only a stall with the CPU inside this range counts.
    pub focus_cpu_pc_range: Option<(u32, u32)>,
    /// Watched addresses to trace inside the focus range.
    pub trace_addrs: Vec<u32>,
}

/// `b - a`, or zero when `a` is later.
pub open spec fn elapsed(a: u128, b: u128) -> u128 {
    if b >= a { (b - a) as u128 } else { 0 }
}

impl Watchdog {
    /// Parse a watchdog number (see `watchdog_u32`).
    pub fn parse_u32(s: &str) -> (r: Option<u32>)
        ensures
            r matches Some(v) ==> watchdog_u32(s@) == Some(v as nat),
            r is None ==> watchdog_u32(s@) is None,
    {
        let cs = chars_of(s);
        assert(cs@.subrange(0, cs@.len() as int) =~= s@);
        watchdog_u32_in(cs.as_slice(), 0, cs.len())
    }

    /// Parse a watchdog range (see `watchdog_range`).
    pub fn parse_u32_range(s: &str) -> (r: Option<(u32, u32)>)
        ensures
            r matches Some((a, b)) ==> watchdog_range(s@) == Some((a as nat, b as nat)),
            r is None ==> watchdog_range(s@) is None,
    {
        let cs = chars_of(s);
        let n = cs.len();
        assert(cs@.subrange(0, n as int) =~= s@);
        let (i, j) = trim_bounds(cs.as_slice(), 0, n);
        let ghost t = cs@.subrange(i as int, j as int);
        let (a0, a1, b0, b1) = match find_pair_in(cs.as_slice(), i, j, '.', '.') {
            Some(p) => {
                assert(t.take(p - i) =~= cs@.subrange(i as int, p as int));
                assert(t.skip(p - i + 2) =~= cs@.subrange(p + 2, j as int));
                (i, p, p + 2, j)
            },
            None => match find_char_in(cs.as_slice(), i, j, '-') {
                Some(p) => {
                    assert(t.take(p - i) =~= cs@.subrange(i as int, p as int));
                    assert(t.skip(p - i + 1) =~= cs@.subrange(p + 1, j as int));
                    (i, p, p + 1, j)
                },
                None => return None,
            },
        };
        let start = match watchdog_u32_in(cs.as_slice(), a0, a1) {
            Some(v) => v,
            None => return None,
        };
        let end = match watchdog_u32_in(cs.as_slice(), b0, b1) {
            Some(v) => v,
            None => return None,
        };
        Some((start, end))
    }

    /// Parse a comma-separated list of watchdog numbers, dropping the
    /// pieces that do not parse.
    pub fn parse_trace_addrs(s: &str) -> (out: Vec<u32>)
        ensures
            out@ == watchdog_list(split_char(s@, ',')),
    {
        let cs = chars_of(s);
        let n = cs.len();
        let mut out: Vec<u32> = Vec::new();
        let mut start: usize = 0;
        let mut k: usize = 0;
        let ghost mut done: Seq<Seq<char>> = Seq::empty();
        assert(cs@.subrange(0, n as int) =~= s@);
        while k <= n
            invariant
                cs@ == s@,
                n == cs@.len(),
                start <= k,
                k <= n,
                forall|q: int| start <= q < k ==> cs@[q] != ',',
                done + split_char(cs@.subrange(start as int, n as int), ',') == split_char(s@, ','),
                out@ == watchdog_list(done),
            decreases n + 1 - k,
        {
            if k == n || cs[k] == ',' {
                let v = watchdog_u32_in(cs.as_slice(), start, k);
                proof {
                    let rest = cs@.subrange(start as int, n as int);
                    crate::parse::lemma_find_char_bounds(rest, ',');
                    if k < n {
                        assert(crate::parse::find_char(rest, ',') == Some(k - start)) by {
                            assert(rest[k - start] == ',');
                            assert forall|j: int| 0 <= j < k - start implies rest[j] != ',' by {
                                assert(rest[j] == cs@[start + j]);
                            }
                            if let Some(f) = crate::parse::find_char(rest, ',') {
                                if f < k - start {
                                    assert(rest[f] == cs@[start + f]);
                                }
                            }
                        }
                        assert(rest.take(k - start) =~= cs@.subrange(start as int, k as int));
                        assert(rest.skip(k - start + 1) =~= cs@.subrange(k + 1, n as int));
                        assert(split_char(rest, ',') =~= seq![cs@.subrange(start as int, k as int)]
                            + split_char(cs@.subrange(k + 1, n as int), ','));
                    } else {
                        assert forall|j: int| 0 <= j < rest.len() implies rest[j] != ',' by {
                            assert(rest[j] == cs@[start + j]);
                        }
                        assert(crate::parse::find_char(rest, ',') is None);
                        assert(split_char(rest, ',') == seq![rest]);
                    }
                }
                let ghost piece = cs@.subrange(start as int, k as int);
                proof {
                    assert((done.push(piece)).drop_last() =~= done);
                    assert(done.push(piece).last() == piece);
                }
                match v {
                    Some(x) => out.push(x),
                    None => {},
                }
                proof {
                    if k < n {
                        assert(done + split_char(cs@.subrange(start as int, n as int), ',')
                            =~= done.push(piece) + split_char(cs@.subrange(k + 1, n as int), ','));
                    }
                    done = done.push(piece);
                }
                if k == n {
                    proof {
                        assert(done =~= split_char(s@, ','));
                    }
                    return out;
                }
                start = k + 1;
            }
            k += 1;
        }
        out
    }

    /// Whether the CPU program counter `pc` is in the focus range; always
    /// true without one.
    pub fn focus_contains(&self, pc: u32) -> (r: bool)
        ensures
            r == match self.focus_cpu_pc_range {
                Some((start, end)) => start <= pc <= end,
                None => true,
            },
    {
        match self.focus_cpu_pc_range {
            Some((start, end)) => start <= pc && pc <= end,
            None => true,
        }
    }

    /// Whether a step at CPU program counter `pc` traces the watched
    /// addresses: there are some, and `pc` is in the focus range.
    pub fn traces_at(&self, pc: u32) -> (r: bool)
        ensures
            r == (self.trace_addrs@.len() > 0 && match self.focus_cpu_pc_range {
                Some((start, end)) => start <= pc <= end,
                None => true,
            }),
    {
        self.trace_addrs.len() > 0 && self.focus_contains(pc)
    }

    /// A watchdog when any probe is requested: a stall threshold in
    /// milliseconds (effectively infinite when only other probes are set),
    /// a sampler cadence, a focus range or trace addresses. `None` when
    /// none is.
    pub fn from_settings(wd_ms: Option<u64>, sample_ms: Option<u64>, focus_cpu_pc_range: Option<(u32, u32)>,
        trace_addrs: Vec<u32>, now_ns: u128) -> (r: Option<Watchdog>)
        ensures
            (wd_ms is None && sample_ms is None && focus_cpu_pc_range is None && trace_addrs@.len() == 0) <==> r is None,
            r matches Some(w) ==> {
                &&& w.threshold_ns == 1_000_000 * match wd_ms { Some(ms) => ms as int, None => (u64::MAX / 2) as int }
                &&& w.last_progress_ns == now_ns
                &&& w.last_sample_ns == now_ns
                &&& w.last_cpu_pc == 0 && w.last_cop_pc == 0
                &&& !w.fired
                &&& w.sample_every_ns == match sample_ms { Some(ms) => Some((1_000_000 * ms) as u128), None => None }
                &&& w.pc_history@.len() == 0
                &&& w.focus_cpu_pc_range == focus_cpu_pc_range
                &&& w.trace_addrs@ == trace_addrs@
            },
    {
        if wd_ms.is_none() && sample_ms.is_none() && focus_cpu_pc_range.is_none() && trace_addrs.len() == 0 {
            return None;
        }
        let ms: u64 = match wd_ms {
            Some(ms) => ms,
            None => u64::MAX / 2,
        };
        let sample_every_ns = match sample_ms {
            Some(s) => Some(s as u128 * 1_000_000),
            None => None,
        };
        Some(Watchdog {
            threshold_ns: ms as u128 * 1_000_000,
            last_progress_ns: now_ns,
            last_cpu_pc: 0,
            last_cop_pc: 0,
            fired: false,
            sample_every_ns,
            last_sample_ns: now_ns,
            pc_history: Vec::new(),
            focus_cpu_pc_range,
            trace_addrs,
        })
    }

    /// One observation of both cores' program counters at time `now_ns`.
    /// The sampler fires once its cadence has elapsed. The history keeps
    /// the last `WATCHDOG_HISTORY` pairs. Leaving a tight loop, or being
    /// outside the focus range, counts as progress and re-arms the
    /// watchdog; otherwise, once the threshold has elapsed since the last
    /// progress, it fires once and restarts its timer.
    pub fn observe(&mut self, now_ns: u128, cpu_pc: u32, cop_pc: u32) -> (report: WatchdogReport)
        requires
            old(self).pc_history@.len() <= WATCHDOG_HISTORY,
        ensures
            final(self).pc_history@ == ({
                let h = old(self).pc_history@.push((cpu_pc, cop_pc));
                if h.len() > WATCHDOG_HISTORY { h.drop_first() } else { h }
            }),
            final(self).pc_history@.len() <= WATCHDOG_HISTORY,
            report.sample == (old(self).sample_every_ns matches Some(c) && elapsed(old(self).last_sample_ns, now_ns) >= c),
            final(self).last_sample_ns == if report.sample { now_ns } else { old(self).last_sample_ns },
            ({
                let stalled = is_tight_loop(final(self).pc_history@) && match old(self).focus_cpu_pc_range {
                    Some((start, end)) => start <= cpu_pc <= end,
                    None => true,
                };
                &&& !stalled ==> {
                    &&& !report.fire
                    &&& final(self).last_cpu_pc == cpu_pc && final(self).last_cop_pc == cop_pc
                    &&& final(self).last_progress_ns == now_ns
                    &&& !final(self).fired
                }
                &&& stalled ==> {
                    &&& report.fire == (!old(self).fired && elapsed(old(self).last_progress_ns, now_ns) >= old(self).threshold_ns)
                    &&& final(self).fired == (old(self).fired || report.fire)
                    &&& final(self).last_progress_ns == if report.fire { now_ns } else { old(self).last_progress_ns }
                    &&& final(self).last_cpu_pc == old(self).last_cpu_pc && final(self).last_cop_pc == old(self).last_cop_pc
                }
            }),
            final(self).threshold_ns == old(self).threshold_ns,
            final(self).sample_every_ns == old(self).sample_every_ns,
            final(self).focus_cpu_pc_range == old(self).focus_cpu_pc_range,
            final(self).trace_addrs@ == old(self).trace_addrs@,
    {
        let mut sample = false;
        if let Some(cadence) = self.sample_every_ns {
            let since = if now_ns >= self.last_sample_ns { now_ns - self.last_sample_ns } else { 0 };
            if since >= cadence {
                self.last_sample_ns = now_ns;
                sample = true;
            }
        }
        let ghost h0 = self.pc_history@.push((cpu_pc, cop_pc));
        self.pc_history.push((cpu_pc, cop_pc));
        if self.pc_history.len() > WATCHDOG_HISTORY {
            self.pc_history.remove(0);
            assert(self.pc_history@ =~= h0.drop_first());
        }
        let tight_loop = if self.pc_history.len() == WATCHDOG_HISTORY {
            let cpu_few = few_pages(&self.pc_history, true);
            let cop_few = few_pages(&self.pc_history, false);
            proof {
                let ps = pages(self.pc_history@, true);
                assert(ps.len() > 0);
                ps.lemma_cardinality_of_empty_set_is_0();
            }
            cpu_few && cop_few
        } else {
            false
        };
        let in_focus = self.focus_contains(cpu_pc);
        let progressing = !tight_loop || !in_focus;
        if progressing {
            self.last_cpu_pc = cpu_pc;
            self.last_cop_pc = cop_pc;
            self.last_progress_ns = now_ns;
            self.fired = false;
            return WatchdogReport { sample, fire: false };
        }
        let since = if now_ns >= self.last_progress_ns { now_ns - self.last_progress_ns } else { 0 };
        let mut fire = false;
        if !self.fired && since >= self.threshold_ns {
            self.fired = true;
            self.last_progress_ns = now_ns;
            fire = true;
        }
        WatchdogReport { sample, fire }
    }
}

/// `base` followed by the addresses of `extra` it lacks, each once, in
/// their order.
pub open spec fn merged_addrs(base: Seq<u32>, extra: Seq<u32>) -> Seq<u32>
    decreases extra.len(),
{
    if extra.len() == 0 {
        base
    } else {
        let m = merged_addrs(base, extra.drop_last());
        if m.contains(extra.last()) { m } else { m.push(extra.last()) }
    }
}

/// The addresses a step watches: the caller's, plus the watchdog's trace
/// addresses when it traces this step.
pub fn sniff_addresses(sniff: &[u32], trace: &[u32], tracing: bool) -> (out: Vec<u32>)
    ensures
        out@ == if tracing { merged_addrs(sniff@, trace@) } else { sniff@ },
{
    let mut out: Vec<u32> = Vec::new();
    let mut i: usize = 0;
    while i < sniff.len()
        invariant
            i <= sniff@.len(),
            out@ == sniff@.take(i as int),
        decreases sniff@.len() - i,
    {
        out.push(sniff[i]);
        i += 1;
        assert(out@ =~= sniff@.take(i as int));
    }
    assert(sniff@.take(sniff@.len() as int) =~= sniff@);
    if !tracing {
        return out;
    }
    let mut k: usize = 0;
    while k < trace.len()
        invariant
            k <= trace@.len(),
            out@ == merged_addrs(sniff@, trace@.take(k as int)),
        decreases trace@.len() - k,
    {
        let a = trace[k];
        let mut present = false;
        let mut j: usize = 0;
        while j < out.len()
            invariant
                j <= out@.len(),
                present == out@.take(j as int).contains(a),
            decreases out@.len() - j,
        {
            if out[j] == a {
                present = true;
            }
            proof {
                let t0 = out@.take(j as int);
                let t1 = out@.take(j + 1);
                assert(t1 =~= t0.push(out@[j as int]));
                if t1.contains(a) {
                    let w = choose|w: int| 0 <= w < t1.len() && t1[w] == a;
                    if w < j {
                        assert(t0[w] == a);
                    }
                }
                if t0.contains(a) {
                    let w = choose|w: int| 0 <= w < t0.len() && t0[w] == a;
                    assert(t1[w] == a);
                }
                if out@[j as int] == a {
                    assert(t1[j as int] == a);
                }
            }
            j += 1;
        }
        assert(out@.take(out@.len() as int) =~= out@);
        assert(trace@.take(k + 1).drop_last() =~= trace@.take(k as int));
        if !present {
            out.push(a);
        }
        k += 1;
    }
    assert(trace@.take(trace@.len() as int) =~= trace@);
    out
}

} // verus!
