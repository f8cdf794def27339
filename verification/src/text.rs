//! Text helpers: lowercase hexadecimal and decimal rendering, and
//! character-wise string comparison.
use vstd::prelude::*;
use crate::parse::push_char;

verus! {

/// The lowercase hexadecimal digit for `n < 16`.
pub open spec fn hex_char(n: nat) -> char {
    if n < 10 {
        (('0' as u32) + n) as char
    } else {
        (('a' as u32) + (n - 10)) as char
    }
}

/// The decimal digit for `n < 10`.
pub open spec fn dec_char(n: nat) -> char {
    (('0' as u32) + n) as char
}

/// `v` in lowercase hexadecimal with no leading zeros (`0` for zero).
pub open spec fn hex_min(v: nat) -> Seq<char>
    decreases v,
{
    if v < 16 {
        seq![hex_char(v)]
    } else {
        hex_min(v / 16).push(hex_char(v % 16))
    }
}

/// `v` in decimal with no leading zeros (`0` for zero).
pub open spec fn dec_min(v: nat) -> Seq<char>
    decreases v,
{
    if v < 10 {
        seq![dec_char(v)]
    } else {
        dec_min(v / 10).push(dec_char(v % 10))
    }
}

/// `n` copies of `c`.
pub open spec fn repeat_char(c: char, n: nat) -> Seq<char> {
    Seq::new(n, |_i: int| c)
}

/// Left-pad `s` with `'0'` to at least `width` characters.
pub open spec fn zero_pad(s: Seq<char>, width: nat) -> Seq<char> {
    if s.len() >= width {
        s
    } else {
        repeat_char('0', (width - s.len()) as nat) + s
    }
}

/// `format!("{:0w$x}", v)`.
pub open spec fn hex_pad(v: nat, width: nat) -> Seq<char> {
    zero_pad(hex_min(v), width)
}

/// `format!("{:#0w$x}", v)`: `0x` then the digits padded to `width - 2`.
pub open spec fn hex_prefixed(v: nat, width: nat) -> Seq<char> {
    seq!['0', 'x'] + zero_pad(hex_min(v), if width >= 2 { (width - 2) as nat } else { 0 })
}

/// A one-character string holding the hexadecimal digit `n`.
pub fn hex_digit_str(n: u64) -> (s: &'static str)
    requires
        n < 16,
    ensures
        s@ == seq![hex_char(n as nat)],
{
    proof {
        reveal_strlit("0");
        reveal_strlit("1");
        reveal_strlit("2");
        reveal_strlit("3");
        reveal_strlit("4");
        reveal_strlit("5");
        reveal_strlit("6");
        reveal_strlit("7");
        reveal_strlit("8");
        reveal_strlit("9");
        reveal_strlit("a");
        reveal_strlit("b");
        reveal_strlit("c");
        reveal_strlit("d");
        reveal_strlit("e");
        reveal_strlit("f");
    }
    if n == 0 { "0" } else if n == 1 { "1" } else if n == 2 { "2" } else if n == 3 { "3" }
    else if n == 4 { "4" } else if n == 5 { "5" } else if n == 6 { "6" } else if n == 7 { "7" }
    else if n == 8 { "8" } else if n == 9 { "9" } else if n == 10 { "a" } else if n == 11 { "b" }
    else if n == 12 { "c" } else if n == 13 { "d" } else if n == 14 { "e" } else { "f" }
}

/// Append the digits of `v` (base 16 or 10), most significant first.
fn digits(v: u64, base: u64) -> (ds: Vec<u64>)
    requires
        base == 10 || base == 16,
    ensures
        ds@.len() >= 1,
        forall|i: int| 0 <= i < ds@.len() ==> #[trigger] ds@[i] < base,
        base == 16 ==> ds@.map_values(|d: u64| hex_char(d as nat)) == hex_min(v as nat),
        base == 10 ==> ds@.map_values(|d: u64| hex_char(d as nat)) == dec_min(v as nat),
    decreases v,
{
    if v < base {
        let mut ds = Vec::new();
        ds.push(v);
        proof {
            assert(ds@.map_values(|d: u64| hex_char(d as nat)) =~= seq![hex_char(v as nat)]);
        }
        ds
    } else {
        let mut ds = digits(v / base, base);
        let ghost prev = ds@;
        ds.push(v % base);
        proof {
            assert(ds@.map_values(|d: u64| hex_char(d as nat))
                =~= prev.map_values(|d: u64| hex_char(d as nat)).push(hex_char((v % base) as nat)));
        }
        ds
    }
}

/// Append `v` as lowercase hexadecimal, zero-padded to `width` digits.
pub fn push_hex(out: &mut String, v: u64, width: usize)
    ensures
        final(out)@ == old(out)@ + hex_pad(v as nat, width as nat),
{
    let ds = digits(v, 16);
    let ghost body = hex_min(v as nat);
    let mut k: usize = ds.len();
    while k < width
        invariant
            ds@.len() <= k <= if width > ds@.len() { width as int } else { ds@.len() as int },
            out@ == old(out)@ + repeat_char('0', (k - ds@.len()) as nat),
        decreases width - k,
    {
        let ghost before = out@;
        out.append(hex_digit_str(0));
        proof {
            assert(out@ =~= old(out)@ + repeat_char('0', (k + 1 - ds@.len()) as nat));
        }
        k += 1;
    }
    let ghost padded = out@;
    let mut i: usize = 0;
    while i < ds.len()
        invariant
            i <= ds@.len(),
            forall|j: int| 0 <= j < ds@.len() ==> #[trigger] ds@[j] < 16,
            ds@.map_values(|d: u64| hex_char(d as nat)) == body,
            out@ == padded + body.take(i as int),
        decreases ds.len() - i,
    {
        out.append(hex_digit_str(ds[i]));
        proof {
            assert(body.take(i + 1) =~= body.take(i as int).push(hex_char(ds@[i as int] as nat)));
            assert(out@ =~= padded + body.take(i + 1));
        }
        i += 1;
    }
    proof {
        assert(body.take(ds@.len() as int) =~= body);
        assert(body.len() == ds@.len());
        if ds@.len() >= width {
            assert(repeat_char('0', 0) =~= Seq::<char>::empty());
            assert(out@ =~= old(out)@ + hex_pad(v as nat, width as nat));
        } else {
            assert(out@ =~= old(out)@ + hex_pad(v as nat, width as nat));
        }
    }
}

/// Append `v` in decimal.
pub fn push_dec(out: &mut String, v: u64)
    ensures
        final(out)@ == old(out)@ + dec_min(v as nat),
{
    let ds = digits(v, 10);
    let ghost body = dec_min(v as nat);
    let ghost start = out@;
    let mut i: usize = 0;
    while i < ds.len()
        invariant
            i <= ds@.len(),
            forall|j: int| 0 <= j < ds@.len() ==> #[trigger] ds@[j] < 10,
            ds@.map_values(|d: u64| hex_char(d as nat)) == body,
            out@ == start + body.take(i as int),
        decreases ds.len() - i,
    {
        out.append(hex_digit_str(ds[i]));
        proof {
            assert(body.take(i + 1) =~= body.take(i as int).push(hex_char(ds@[i as int] as nat)));
        }
        i += 1;
    }
    proof {
        assert(body.take(ds@.len() as int) =~= body);
    }
}

/// Append `v` as `0x`-prefixed lowercase hexadecimal whose total width
/// (prefix included) is at least `width`.
pub fn push_hex_prefixed(out: &mut String, v: u64, width: usize)
    ensures
        final(out)@ == old(out)@ + hex_prefixed(v as nat, width as nat),
{
    proof {
        reveal_strlit("0x");
    }
    out.append("0x");
    let digits_width: usize = if width >= 2 { width - 2 } else { 0 };
    push_hex(out, v, digits_width);
    proof {
        assert(final(out)@ =~= old(out)@ + hex_prefixed(v as nat, width as nat));
    }
}

/// Character-wise equality of two strings.
pub fn str_eq(a: &str, b: &str) -> (r: bool)
    ensures
        r == (a@ == b@),
{
    let n = a.unicode_len();
    if n != b.unicode_len() {
        return false;
    }
    let mut i: usize = 0;
    while i < n
        invariant
            n == a@.len(),
            n == b@.len(),
            i <= n,
            forall|j: int| 0 <= j < i ==> a@[j] == b@[j],
        decreases n - i,
    {
        if a.get_char(i) != b.get_char(i) {
            return false;
        }
        i += 1;
    }
    assert(a@ =~= b@);
    true
}

/// The characters whose codes are the given ASCII bytes.
pub open spec fn ascii_chars(bytes: Seq<u8>) -> Seq<char> {
    bytes.map_values(|b: u8| b as char)
}

/// A `String` of the characters whose codes are the given ASCII bytes.
pub(crate) fn ascii_to_string(bytes: &[u8]) -> (s: String)
    requires
        forall|i: int| 0 <= i < bytes@.len() ==> #[trigger] bytes@[i] < 128,
    ensures
        s@ == ascii_chars(bytes@),
{
    let mut s = String::new();
    let mut i: usize = 0;
    while i < bytes.len()
        invariant
            i <= bytes@.len(),
            s@ == ascii_chars(bytes@.take(i as int)),
        decreases bytes@.len() - i,
    {
        push_char(&mut s, bytes[i] as char);
        i += 1;
        assert(ascii_chars(bytes@.take(i as int)) =~= ascii_chars(bytes@.take(i - 1)).push(bytes@[i - 1] as char));
    }
    assert(bytes@.take(bytes@.len() as int) =~= bytes@);
    s
}

/// Whether `s` begins with `prefix`.
pub fn starts_with(s: &str, prefix: &str) -> (r: bool)
    ensures
        r == (prefix@.len() <= s@.len() && s@.take(prefix@.len() as int) == prefix@),
{
    let n = prefix.unicode_len();
    if n > s.unicode_len() {
        return false;
    }
    let mut i: usize = 0;
    while i < n
        invariant
            n == prefix@.len(),
            n <= s@.len(),
            i <= n,
            forall|j: int| 0 <= j < i ==> s@[j] == prefix@[j],
        decreases n - i,
    {
        if s.get_char(i) != prefix.get_char(i) {
            assert(s@.take(n as int)[i as int] != prefix@[i as int]);
            return false;
        }
        i += 1;
    }
    assert(s@.take(n as int) =~= prefix@);
    true
}

} // verus!
