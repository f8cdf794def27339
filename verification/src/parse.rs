//! Splitting, trimming and number parsing over characters, with the
//! semantics of `str::trim`, `str::split`, `str::split_once` and the
//! unsigned `from_str_radix` parsers.
use vstd::prelude::*;

verus! {

/// Unicode `White_Space`, as `char::is_whitespace` tests it.
pub open spec fn is_ws(c: char) -> bool {
    let u = c as u32;
    (0x09 <= u <= 0x0d) || u == 0x20 || u == 0x85 || u == 0xa0 || u == 0x1680 || (0x2000 <= u <= 0x200a)
        || u == 0x2028 || u == 0x2029 || u == 0x202f || u == 0x205f || u == 0x3000
}

pub fn char_is_ws(c: char) -> (b: bool)
    ensures
        b == is_ws(c),
{
    let u = c as u32;
    (0x09 <= u && u <= 0x0d) || u == 0x20 || u == 0x85 || u == 0xa0 || u == 0x1680 || (0x2000 <= u && u <= 0x200a)
        || u == 0x2028 || u == 0x2029 || u == 0x202f || u == 0x205f || u == 0x3000
}

/// How many whitespace characters `s` starts with.
pub open spec fn lead_ws(s: Seq<char>) -> nat
    decreases s.len(),
{
    if s.len() > 0 && is_ws(s[0]) {
        1 + lead_ws(s.drop_first())
    } else {
        0
    }
}

/// How many whitespace characters `s` ends with.
pub open spec fn trail_ws(s: Seq<char>) -> nat
    decreases s.len(),
{
    if s.len() > 0 && is_ws(s.last()) {
        1 + trail_ws(s.drop_last())
    } else {
        0
    }
}

/// `s` without leading and trailing whitespace.
pub open spec fn trim(s: Seq<char>) -> Seq<char> {
    let t = s.skip(lead_ws(s) as int);
    t.take(t.len() - trail_ws(t))
}

/// `s` with ASCII capitals lowered.
pub open spec fn lower(s: Seq<char>) -> Seq<char> {
    s.map_values(|c: char| if 'A' <= c <= 'Z' { ((c as u32) + 32) as char } else { c })
}

/// The first position of `c` in `s`.
pub open spec fn find_char(s: Seq<char>, c: char) -> Option<int>
    decreases s.len(),
{
    if s.len() == 0 {
        None
    } else if s[0] == c {
        Some(0)
    } else {
        match find_char(s.drop_first(), c) {
            Some(i) => Some(i + 1),
            None => None,
        }
    }
}

/// `str::split_once` on a character: the text before and after its first
/// occurrence.
pub open spec fn split_once(s: Seq<char>, c: char) -> Option<(Seq<char>, Seq<char>)> {
    match find_char(s, c) {
        Some(i) => Some((s.take(i), s.skip(i + 1))),
        None => None,
    }
}

/// The first position where `s` holds `a` followed by `b`.
pub open spec fn find_pair(s: Seq<char>, a: char, b: char) -> Option<int>
    decreases s.len(),
{
    if s.len() < 2 {
        None
    } else if s[0] == a && s[1] == b {
        Some(0)
    } else {
        match find_pair(s.drop_first(), a, b) {
            Some(i) => Some(i + 1),
            None => None,
        }
    }
}

/// `str::split_once` on a two-character pattern.
pub open spec fn split_once_pair(s: Seq<char>, a: char, b: char) -> Option<(Seq<char>, Seq<char>)> {
    match find_pair(s, a, b) {
        Some(i) => Some((s.take(i), s.skip(i + 2))),
        None => None,
    }
}

/// `str::split` on a character: the pieces between its occurrences.
pub open spec fn split_char(s: Seq<char>, c: char) -> Seq<Seq<char>>
    decreases s.len(),
{
    match find_char(s, c) {
        Some(i) => {
            proof {
                lemma_find_char_bounds(s, c);
            }
            seq![s.take(i)] + split_char(s.skip(i + 1), c)
        },
        None => seq![s],
    }
}

/// A found character lies inside `s`, and none before it matches.
pub proof fn lemma_find_char_bounds(s: Seq<char>, c: char)
    ensures
        find_char(s, c) matches Some(i) ==> 0 <= i < s.len() && s[i] == c
            && forall|j: int| 0 <= j < i ==> s[j] != c,
        find_char(s, c) is None ==> forall|j: int| 0 <= j < s.len() ==> s[j] != c,
    decreases s.len(),
{
    if s.len() > 0 {
        lemma_find_char_bounds(s.drop_first(), c);
        if s[0] != c {
            assert forall|j: int| 1 <= j < s.len() implies #[trigger] s[j] == s.drop_first()[j - 1] by {}
        }
    }
}

/// The value of a digit in `radix`, either case.
pub open spec fn digit_val(c: char, radix: nat) -> Option<nat> {
    let u = c as u32;
    let d: nat = if '0' <= c <= '9' {
        (u - 48) as nat
    } else if 'a' <= c <= 'z' {
        (u - 87) as nat
    } else if 'A' <= c <= 'Z' {
        (u - 55) as nat
    } else {
        99
    };
    if d < radix { Some(d) } else { None }
}

/// The value of a string of digits in `radix` (0 for none).
pub open spec fn digits_val(s: Seq<char>, radix: nat) -> Option<nat>
    decreases s.len(),
{
    if s.len() == 0 {
        Some(0)
    } else {
        match (digits_val(s.drop_last(), radix), digit_val(s.last(), radix)) {
            (Some(a), Some(d)) => Some(a * radix + d),
            _ => None,
        }
    }
}

/// Parsing the decimal and lowercase hexadecimal renderings of `n` gives
/// `n` back, so digits are read most significant first with their face
/// values.
pub proof fn lemma_digits_round_trip(n: nat)
    ensures
        digits_val(crate::text::dec_min(n), 10) == Some(n),
        digits_val(crate::text::hex_min(n), 16) == Some(n),
        n <= 0xffff_ffff ==> parse_uint(crate::text::dec_min(n), 10, 0xffff_ffff) == Some(n),
    decreases n,
{
    let d10 = n % 10;
    let d16 = n % 16;
    let c10 = (('0' as u32) + d10) as char;
    assert(c10 as u32 == 48 + d10) by {
        vstd::utf8::char_u32_cast(c10, (48 + d10) as u32);
    }
    let c16 = if d16 < 10 { (('0' as u32) + d16) as char } else { (('a' as u32) + (d16 - 10)) as char };
    if d16 < 10 {
        assert(c16 as u32 == 48 + d16) by {
            vstd::utf8::char_u32_cast(c16, (48 + d16) as u32);
        }
    } else {
        assert(c16 as u32 == 97 + (d16 - 10)) by {
            vstd::utf8::char_u32_cast(c16, (97 + (d16 - 10)) as u32);
        }
    }
    assert(digit_val(c10, 10) == Some(d10));
    assert(digit_val(c16, 16) == Some(d16));
    assert(crate::text::hex_char(d16) == c16);
    if n >= 10 {
        lemma_digits_round_trip(n / 10);
        let s = crate::text::dec_min(n);
        assert(s.drop_last() == crate::text::dec_min(n / 10));
        assert(s.last() == c10);
    } else {
        assert(crate::text::dec_min(n).drop_last() =~= Seq::<char>::empty());
    }
    if n >= 16 {
        lemma_digits_round_trip(n / 16);
        let s = crate::text::hex_min(n);
        assert(s.drop_last() == crate::text::hex_min(n / 16));
        assert(s.last() == c16);
    } else {
        assert(crate::text::hex_min(n) == seq![c16]);
        assert(crate::text::hex_min(n).drop_last() =~= Seq::<char>::empty());
        assert(digits_val(Seq::<char>::empty(), 16) == Some(0nat));
    }
    let t = crate::text::dec_min(n);
    assert(t.len() > 0);
    if t[0] == '+' {
        lemma_dec_min_digits(n);
    }
}

proof fn lemma_dec_min_digits(n: nat)
    ensures
        forall|i: int| 0 <= i < crate::text::dec_min(n).len() ==> '0' <= #[trigger] crate::text::dec_min(n)[i] <= '9',
    decreases n,
{
    let c = (('0' as u32) + n % 10) as char;
    vstd::utf8::char_u32_cast(c, (48 + n % 10) as u32);
    if n >= 10 {
        lemma_dec_min_digits(n / 10);
        let s = crate::text::dec_min(n);
        assert forall|i: int| 0 <= i < s.len() implies '0' <= #[trigger] s[i] <= '9' by {
            if i < s.len() - 1 {
                assert(s[i] == crate::text::dec_min(n / 10)[i]);
            }
        }
    }
}

/// Unsigned `from_str_radix`: an optional `+`, then one or more digits of
/// `radix`, with a value of at most `max`.
pub open spec fn parse_uint(s: Seq<char>, radix: nat, max: nat) -> Option<nat> {
    let digits = if s.len() > 0 && s[0] == '+' { s.drop_first() } else { s };
    if digits.len() == 0 {
        None
    } else {
        match digits_val(digits, radix) {
            Some(v) => if v <= max { Some(v) } else { None },
            None => None,
        }
    }
}

/// Once a digit prefix exceeds `max`, every extension does too (or holds
/// a non-digit).
proof fn lemma_digits_grow(s: Seq<char>, radix: nat, k: int, max: nat)
    requires
        1 <= radix,
        0 <= k <= s.len(),
        digits_val(s.take(k), radix) matches Some(v) && v > max,
    ensures
        digits_val(s, radix) matches Some(w) ==> w > max,
    decreases s.len() - k,
{
    if k < s.len() {
        let t = s.take(k + 1);
        assert(t.drop_last() =~= s.take(k));
        if digits_val(t, radix) is Some {
            let a = digits_val(s.take(k), radix)->0;
            assert(a * radix >= a) by (nonlinear_arith) requires radix >= 1, a >= 0;
        }
        if digits_val(t, radix) is Some {
            lemma_digits_grow(s, radix, k + 1, max);
        } else {
            lemma_digits_none(s, radix, k + 1);
        }
    } else {
        assert(s.take(k) =~= s);
    }
}

/// A non-digit in a prefix makes the whole string a non-number.
proof fn lemma_digits_none(s: Seq<char>, radix: nat, k: int)
    requires
        0 <= k <= s.len(),
        digits_val(s.take(k), radix) is None,
    ensures
        digits_val(s, radix) is None,
    decreases s.len() - k,
{
    if k < s.len() {
        assert(s.take(k + 1).drop_last() =~= s.take(k));
        lemma_digits_none(s, radix, k + 1);
    } else {
        assert(s.take(k) =~= s);
    }
}

/// The value of `c` as a digit of `radix`.
fn digit_value(c: char, radix: u32) -> (d: Option<u32>)
    requires
        radix <= 36,
    ensures
        d matches Some(v) ==> digit_val(c, radix as nat) == Some(v as nat),
        d is None ==> digit_val(c, radix as nat) is None,
{
    let u = c as u32;
    let v: u32 = if '0' <= c && c <= '9' {
        u - 48
    } else if 'a' <= c && c <= 'z' {
        u - 87
    } else if 'A' <= c && c <= 'Z' {
        u - 55
    } else {
        99
    };
    if v < radix { Some(v) } else { None }
}

/// Parse `cs[a..b]` as an unsigned number in `radix` no greater than `max`
/// (see `parse_uint`).
pub fn parse_uint_range(cs: &[char], a: usize, b: usize, radix: u32, max: u64) -> (r: Option<u64>)
    requires
        a <= b <= cs@.len(),
        2 <= radix <= 36,
    ensures
        r matches Some(v) ==> parse_uint(cs@.subrange(a as int, b as int), radix as nat, max as nat) == Some(v as nat),
        r is None ==> parse_uint(cs@.subrange(a as int, b as int), radix as nat, max as nat) is None,
{
    let ghost s = cs@.subrange(a as int, b as int);
    let mut i = a;
    if i < b && cs[i] == '+' {
        i += 1;
    }
    let ghost digits = cs@.subrange(i as int, b as int);
    assert(digits =~= if s.len() > 0 && s[0] == '+' { s.drop_first() } else { s });
    if i == b {
        return None;
    }
    let mut acc: u64 = 0;
    let mut k = i;
    assert(digits.take(0) =~= Seq::<char>::empty());
    while k < b
        invariant
            i <= k <= b <= cs@.len(),
            2 <= radix <= 36,
            digits == cs@.subrange(i as int, b as int),
            s == cs@.subrange(a as int, b as int),
            digits == (if s.len() > 0 && s[0] == '+' { s.drop_first() } else { s }),
            digits.len() > 0,
            digits_val(digits.take(k - i), radix as nat) == Some(acc as nat),
            acc <= max,
        decreases b - k,
    {
        proof {
            assert(digits.take(k - i + 1).drop_last() =~= digits.take(k - i));
            assert(digits.take(k - i + 1).last() == cs@[k as int]);
        }
        let d = match digit_value(cs[k], radix) {
            Some(d) => d,
            None => {
                proof {
                    lemma_digits_none(digits, radix as nat, k - i + 1);
                }
                return None;
            },
        };
        if d as u64 > max || acc > (max - d as u64) / radix as u64 {
            proof {
                if d <= max {
                    let q = (max - d) / (radix as int);
                    assert((acc as int) * (radix as int) + d > max) by (nonlinear_arith)
                        requires acc > q, q == (max - d) / (radix as int), radix >= 2, d >= 0, max >= d;
                }
                lemma_digits_grow(digits, radix as nat, k - i + 1, max as nat);
            }
            return None;
        }
        proof {
            let q = (max - d) / (radix as int);
            assert((acc as int) * (radix as int) + d <= max) by (nonlinear_arith)
                requires acc <= q, q == (max - d) / (radix as int), radix >= 2, d >= 0, max >= d;
        }
        acc = acc * radix as u64 + d as u64;
        k += 1;
    }
    assert(digits.take(b - i) =~= digits);
    Some(acc)
}

/// The characters of `s`.
pub fn chars_of(s: &str) -> (v: Vec<char>)
    ensures
        v@ == s@,
{
    let n = s.unicode_len();
    let mut v: Vec<char> = Vec::new();
    let mut i: usize = 0;
    while i < n
        invariant
            n == s@.len(),
            i <= n,
            v@ == s@.take(i as int),
        decreases n - i,
    {
        v.push(s.get_char(i));
        i += 1;
        assert(v@ =~= s@.take(i as int));
    }
    assert(s@.take(n as int) =~= s@);
    v
}

/// `String::push`: append one character.
#[verifier::external_body]
pub(crate) fn push_char(s: &mut String, c: char)
    ensures
        final(s)@ == old(s)@.push(c),
{
    s.push(c);
}

/// A `String` of `cs[a..b]`.
pub fn string_of(cs: &[char], a: usize, b: usize) -> (out: String)
    requires
        a <= b <= cs@.len(),
    ensures
        out@ == cs@.subrange(a as int, b as int),
{
    let mut out = String::new();
    let mut k = a;
    while k < b
        invariant
            a <= k <= b <= cs@.len(),
            out@ == cs@.subrange(a as int, k as int),
        decreases b - k,
    {
        push_char(&mut out, cs[k]);
        k += 1;
        assert(out@ =~= cs@.subrange(a as int, k as int));
    }
    out
}

/// A `String` of `cs[a..b]` with ASCII capitals lowered.
pub fn lower_string_of(cs: &[char], a: usize, b: usize) -> (out: String)
    requires
        a <= b <= cs@.len(),
    ensures
        out@ == lower(cs@.subrange(a as int, b as int)),
{
    let mut out = String::new();
    let mut k = a;
    while k < b
        invariant
            a <= k <= b <= cs@.len(),
            out@ == lower(cs@.subrange(a as int, k as int)),
        decreases b - k,
    {
        let c = cs[k];
        let l = if 'A' <= c && c <= 'Z' { ((c as u8) + 32) as char } else { c };
        push_char(&mut out, l);
        k += 1;
        assert(out@ =~= lower(cs@.subrange(a as int, k as int)));
    }
    out
}

/// The bounds of `trim(cs[a..b])` inside `cs`.
pub fn trim_bounds(cs: &[char], a: usize, b: usize) -> (r: (usize, usize))
    requires
        a <= b <= cs@.len(),
    ensures
        a <= r.0 <= r.1 <= b,
        cs@.subrange(r.0 as int, r.1 as int) == trim(cs@.subrange(a as int, b as int)),
{
    let mut i = a;
    while i < b && char_is_ws(cs[i])
        invariant
            a <= i <= b <= cs@.len(),
            lead_ws(cs@.subrange(a as int, b as int)) == (i - a) + lead_ws(cs@.subrange(i as int, b as int)),
        decreases b - i,
    {
        assert(cs@.subrange(i as int, b as int).drop_first() =~= cs@.subrange(i + 1, b as int));
        i += 1;
    }
    let mut j = b;
    while j > i && char_is_ws(cs[j - 1])
        invariant
            a <= i <= j <= b <= cs@.len(),
            trail_ws(cs@.subrange(i as int, b as int)) == (b - j) + trail_ws(cs@.subrange(i as int, j as int)),
        decreases j - i,
    {
        assert(cs@.subrange(i as int, j as int).drop_last() =~= cs@.subrange(i as int, j - 1));
        j -= 1;
    }
    proof {
        let s = cs@.subrange(a as int, b as int);
        assert(s.skip(lead_ws(s) as int) =~= cs@.subrange(i as int, b as int));
        let t = cs@.subrange(i as int, b as int);
        assert(t.take(t.len() - trail_ws(t)) =~= cs@.subrange(i as int, j as int));
    }
    (i, j)
}

/// The first position of `c` in `cs[a..b]`, as an index of `cs`.
pub fn find_char_in(cs: &[char], a: usize, b: usize, c: char) -> (r: Option<usize>)
    requires
        a <= b <= cs@.len(),
    ensures
        r matches Some(i) ==> a <= i < b && find_char(cs@.subrange(a as int, b as int), c) == Some(i - a),
        r is None ==> find_char(cs@.subrange(a as int, b as int), c) is None,
{
    let mut i = a;
    while i < b
        invariant
            a <= i <= b <= cs@.len(),
            find_char(cs@.subrange(a as int, b as int), c) == match find_char(cs@.subrange(i as int, b as int), c) {
                Some(k) => Some(k + (i - a)),
                None => None,
            },
        decreases b - i,
    {
        if cs[i] == c {
            return Some(i);
        }
        assert(cs@.subrange(i as int, b as int).drop_first() =~= cs@.subrange(i + 1, b as int));
        i += 1;
    }
    None
}

/// The first position of `x` followed by `y` in `cs[a..b]`, as an index of
/// `cs`.
pub fn find_pair_in(cs: &[char], a: usize, b: usize, x: char, y: char) -> (r: Option<usize>)
    requires
        a <= b <= cs@.len(),
    ensures
        r matches Some(i) ==> a <= i && i + 2 <= b && find_pair(cs@.subrange(a as int, b as int), x, y) == Some(i - a),
        r is None ==> find_pair(cs@.subrange(a as int, b as int), x, y) is None,
{
    let mut i = a;
    while i < b && b - i >= 2
        invariant
            a <= i <= b <= cs@.len(),
            find_pair(cs@.subrange(a as int, b as int), x, y) == match find_pair(cs@.subrange(i as int, b as int), x, y) {
                Some(k) => Some(k + (i - a)),
                None => None,
            },
        decreases b - i,
    {
        if cs[i] == x && cs[i + 1] == y {
            return Some(i);
        }
        assert(cs@.subrange(i as int, b as int).drop_first() =~= cs@.subrange(i + 1, b as int));
        i += 1;
    }
    None
}

/// Whether `pat` occurs in `s` at position `i`.
pub open spec fn occurs_at(s: Seq<char>, pat: Seq<char>, i: int) -> bool {
    0 <= i && i + pat.len() <= s.len() && s.subrange(i, i + pat.len()) == pat
}

/// The first position of `pat` in `s` at or after `from` (`str::find`).
pub open spec fn find_sub_from(s: Seq<char>, pat: Seq<char>, from: int) -> Option<int>
    decreases s.len() + 1 - from,
{
    if from < 0 || from + pat.len() > s.len() {
        None
    } else if occurs_at(s, pat, from) {
        Some(from)
    } else {
        find_sub_from(s, pat, from + 1)
    }
}

/// The first position of `pat` in `s`.
pub open spec fn find_sub(s: Seq<char>, pat: Seq<char>) -> Option<int> {
    find_sub_from(s, pat, 0)
}

/// A found position lies at or after `from` and the pattern fits there.
pub proof fn lemma_find_sub_bounds(s: Seq<char>, pat: Seq<char>, from: int)
    ensures
        find_sub_from(s, pat, from) matches Some(i) ==> from <= i && occurs_at(s, pat, i),
    decreases s.len() + 1 - from,
{
    if !(from < 0 || from + pat.len() > s.len()) && !occurs_at(s, pat, from) {
        lemma_find_sub_bounds(s, pat, from + 1);
    }
}

/// Whether `pat` occurs in `cs` at `i`.
fn occurs_at_exec(cs: &[char], pat: &[char], i: usize) -> (r: bool)
    requires
        i + pat@.len() <= cs@.len(),
    ensures
        r == occurs_at(cs@, pat@, i as int),
{
    let mut k: usize = 0;
    while k < pat.len()
        invariant
            cs@.len() == cs.len(),
            i + pat@.len() <= cs@.len(),
            k <= pat@.len(),
            forall|j: int| 0 <= j < k ==> cs@[i + j] == pat@[j],
        decreases pat@.len() - k,
    {
        if cs[i + k] != pat[k] {
            assert(cs@.subrange(i as int, i + pat@.len())[k as int] != pat@[k as int]);
            return false;
        }
        k += 1;
    }
    assert(cs@.subrange(i as int, i + pat@.len()) =~= pat@);
    true
}

/// The first position of `pat` in `cs` at or after `from`.
pub fn find_sub_exec(cs: &[char], pat: &[char], from: usize) -> (r: Option<usize>)
    ensures
        r matches Some(i) ==> find_sub_from(cs@, pat@, from as int) == Some(i as int),
        r is None ==> find_sub_from(cs@, pat@, from as int) is None,
{
    if pat.len() == 0 {
        if from <= cs.len() {
            assert(cs@.subrange(from as int, from as int) =~= pat@);
            return Some(from);
        }
        return None;
    }
    let mut i = from;
    while i <= cs.len() && cs.len() - i >= pat.len()
        invariant
            pat@.len() >= 1,
            from <= i,
            find_sub_from(cs@, pat@, from as int) == find_sub_from(cs@, pat@, i as int),
        decreases cs@.len() + 1 - i,
    {
        if occurs_at_exec(cs, pat, i) {
            return Some(i);
        }
        i += 1;
    }
    None
}

/// Code-point lexicographic order, the order of `str`'s `Ord` (UTF-8
/// bytes compare as their code points do): a proper prefix comes first.
pub open spec fn lex_lt(a: Seq<char>, b: Seq<char>) -> bool
    decreases a.len(),
{
    if a.len() == 0 {
        b.len() > 0
    } else if b.len() == 0 {
        false
    } else if a[0] != b[0] {
        (a[0] as u32) < (b[0] as u32)
    } else {
        lex_lt(a.drop_first(), b.drop_first())
    }
}

/// The order is irreflexive and asymmetric.
pub proof fn lemma_lex_lt_asymmetric(a: Seq<char>, b: Seq<char>)
    ensures
        lex_lt(a, b) ==> !lex_lt(b, a),
    decreases a.len(),
{
    if a.len() > 0 && b.len() > 0 && a[0] == b[0] {
        lemma_lex_lt_asymmetric(a.drop_first(), b.drop_first());
    }
}

/// The order is transitive.
pub proof fn lemma_lex_lt_transitive(a: Seq<char>, b: Seq<char>, c: Seq<char>)
    requires
        lex_lt(a, b),
        lex_lt(b, c),
    ensures
        lex_lt(a, c),
    decreases a.len(),
{
    if a.len() > 0 && b.len() > 0 && c.len() > 0 && a[0] == b[0] && b[0] == c[0] {
        lemma_lex_lt_transitive(a.drop_first(), b.drop_first(), c.drop_first());
    }
}

/// The order is total: two sequences neither of which comes first are equal.
pub proof fn lemma_lex_lt_total(a: Seq<char>, b: Seq<char>)
    ensures
        !lex_lt(a, b) && !lex_lt(b, a) ==> a == b,
    decreases a.len(),
{
    if a.len() > 0 && b.len() > 0 && a[0] == b[0] {
        lemma_lex_lt_total(a.drop_first(), b.drop_first());
        if a.drop_first() == b.drop_first() {
            assert(a =~= seq![a[0]] + a.drop_first());
            assert(b =~= seq![b[0]] + b.drop_first());
        }
    } else if a.len() > 0 && b.len() > 0 {
        if (a[0] as u32) == (b[0] as u32) {
            vstd::utf8::char_u32_cast(a[0], a[0] as u32);
            vstd::utf8::char_u32_cast(b[0], b[0] as u32);
        }
    } else if a.len() == 0 && b.len() == 0 {
        assert(a =~= b);
    }
}

/// Whether `a` comes before `b` in code-point order.
pub fn chars_lt(a: &Vec<char>, b: &Vec<char>) -> (r: bool)
    ensures
        r == lex_lt(a@, b@),
{
    let mut i: usize = 0;
    assert(a@.skip(0) =~= a@ && b@.skip(0) =~= b@);
    while i < a.len() && i < b.len()
        invariant
            i <= a@.len(),
            i <= b@.len(),
            lex_lt(a@, b@) == lex_lt(a@.skip(i as int), b@.skip(i as int)),
        decreases a@.len() - i,
    {
        let x = a[i];
        let y = b[i];
        if x != y {
            assert(a@.skip(i as int)[0] == x && b@.skip(i as int)[0] == y);
            return (x as u32) < (y as u32);
        }
        assert(a@.skip(i as int).drop_first() =~= a@.skip(i + 1));
        assert(b@.skip(i as int).drop_first() =~= b@.skip(i + 1));
        i += 1;
    }
    i < b.len()
}

/// Whether `s` is in ascending code-point order.
pub open spec fn lex_sorted(s: Seq<Seq<char>>) -> bool {
    forall|i: int, j: int| 0 <= i < j < s.len() ==> !lex_lt(#[trigger] s[j], #[trigger] s[i])
}

/// `names` in ascending code-point order, as `<[String]>::sort` leaves them.
pub fn sort_strings(names: Vec<String>) -> (out: Vec<String>)
    ensures
        out@.to_multiset() == names@.to_multiset(),
        lex_sorted(out@.map_values(|s: String| s@)),
{
    broadcast use vstd::seq_lib::group_to_multiset_ensures;
    let ghost orig = names@;
    let mut rest = names;
    let mut out: Vec<String> = Vec::new();
    let mut keys: Vec<Vec<char>> = Vec::new();
    while rest.len() > 0
        invariant
            out@.to_multiset().add(rest@.to_multiset()) == orig.to_multiset(),
            keys@.len() == out@.len(),
            forall|k: int| 0 <= k < out@.len() ==> (#[trigger] keys@[k])@ == out@[k]@,
            lex_sorted(out@.map_values(|s: String| s@)),
        decreases rest@.len(),
    {
        let ghost before = rest@;
        let s = rest.pop().unwrap();
        proof {
            assert(before =~= rest@.push(s));
            vstd::seq_lib::to_multiset_build(rest@, s);
        }
        let key = chars_of(s.as_str());
        let mut p: usize = 0;
        while p < keys.len() && !chars_lt(&key, &keys[p])
            invariant
                p <= keys@.len(),
                keys@.len() == out@.len(),
                forall|q: int| 0 <= q < p ==> !lex_lt(key@, (#[trigger] keys@[q])@),
            decreases keys@.len() - p,
        {
            p += 1;
        }
        let ghost old_out = out@;
        let ghost old_keys = keys@;
        proof {
            vstd::seq_lib::to_multiset_insert(old_out, p as int, s);
        }
        out.insert(p, s);
        keys.insert(p, key);
        proof {
            let v = out@.map_values(|t: String| t@);
            let ov = old_out.map_values(|t: String| t@);
            assert forall|i: int, j: int| 0 <= i < j < v.len() implies !lex_lt(#[trigger] v[j], #[trigger] v[i]) by {
                if j < p {
                    assert(v[i] == ov[i] && v[j] == ov[j]);
                } else if i > p {
                    assert(v[i] == ov[i - 1] && v[j] == ov[j - 1]);
                } else if i < p && j > p {
                    assert(v[i] == ov[i] && v[j] == ov[j - 1]);
                } else if j == p {
                    assert(v[j] == key@);
                    assert(v[i] == old_keys[i]@);
                } else {
                    // i == p < j: the new key precedes keys[p] and so every later one.
                    assert(v[i] == key@);
                    assert(v[j] == ov[j - 1]);
                    assert(lex_lt(key@, old_keys[p as int]@));
                    assert(old_keys[p as int]@ == ov[p as int]);
                    lemma_lex_lt_asymmetric(key@, ov[p as int]);
                    if lex_lt(ov[j - 1], key@) {
                        lemma_lex_lt_transitive(ov[j - 1], key@, ov[p as int]);
                        if j - 1 > p {
                            assert(!lex_lt(ov[j - 1], ov[p as int]));
                        }
                    }
                }
            }
            assert forall|k: int| 0 <= k < out@.len() implies (#[trigger] keys@[k])@ == out@[k]@ by {
                if k < p {
                    assert(keys@[k] == old_keys[k] && out@[k] == old_out[k]);
                } else if k > p {
                    assert(keys@[k] == old_keys[k - 1] && out@[k] == old_out[k - 1]);
                }
            }
            assert(out@.to_multiset().add(rest@.to_multiset()) =~= orig.to_multiset());
        }
    }
    proof {
        assert(rest@.to_multiset() =~= vstd::multiset::Multiset::empty());
        assert(out@.to_multiset().add(vstd::multiset::Multiset::empty()) =~= out@.to_multiset());
    }
    out
}

} // verus!
