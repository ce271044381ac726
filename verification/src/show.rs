//! The human-facing number formatter: decimal with thousands grouping,
//! hexadecimal with nibble/byte grouping, and binary with 4-bit grouping and
//! an aligned bit-index ruler.

use vstd::prelude::*;
use vstd::arithmetic::div_mod::lemma_div_plus_one;
use vstd::arithmetic::power::pow;
use crate::chars::{push_char, range_to_string};
use vstd::string::StringExecFns;

verus! {

/// The lower-case digit character for a value below sixteen.
pub open spec fn digit_chr(d: int) -> char {
    if d == 0 {
        '0'
    } else if d == 1 {
        '1'
    } else if d == 2 {
        '2'
    } else if d == 3 {
        '3'
    } else if d == 4 {
        '4'
    } else if d == 5 {
        '5'
    } else if d == 6 {
        '6'
    } else if d == 7 {
        '7'
    } else if d == 8 {
        '8'
    } else if d == 9 {
        '9'
    } else if d == 10 {
        'a'
    } else if d == 11 {
        'b'
    } else if d == 12 {
        'c'
    } else if d == 13 {
        'd'
    } else if d == 14 {
        'e'
    } else {
        'f'
    }
}

/// Executable twin of [`digit_chr`].
fn digit_chr_exec(d: u8) -> (c: char)
    requires
        d < 16,
    ensures
        c == digit_chr(d as int),
{
    match d {
        0 => '0',
        1 => '1',
        2 => '2',
        3 => '3',
        4 => '4',
        5 => '5',
        6 => '6',
        7 => '7',
        8 => '8',
        9 => '9',
        10 => 'a',
        11 => 'b',
        12 => 'c',
        13 => 'd',
        14 => 'e',
        _ => 'f',
    }
}

/// The digit string of the non-negative value `m` in the given radix, most
/// significant digit first, with no leading zeroes (a single zero for zero).
pub open spec fn radix_chars(m: int, radix: int) -> Seq<char>
    decreases m,
    via radix_chars_decreases
{
    if m < radix || m <= 0 || radix <= 1 {
        seq![digit_chr(if 0 <= m < radix { m % radix } else { 0 })]
    } else {
        radix_chars(m / radix, radix).push(digit_chr(m % radix))
    }
}

#[via_fn]
proof fn radix_chars_decreases(m: int, radix: int) {
    if !(m < radix || m <= 0 || radix <= 1) {
        vstd::arithmetic::div_mod::lemma_div_decreases(m, radix);
        vstd::arithmetic::div_mod::lemma_div_pos_is_pos(m, radix);
    }
}

/// The signed decimal string of `n`.
pub open spec fn dec_str(n: int) -> Seq<char> {
    if n >= 0 {
        radix_chars(n, 10)
    } else {
        seq!['-'] + radix_chars(-n, 10)
    }
}

/// The digit string of `m`, executably.
fn radix_chars_exec(m: u128, radix: u128) -> (v: Vec<char>)
    requires
        radix == 2 || radix == 10 || radix == 16,
    ensures
        v@ == radix_chars(m as int, radix as int),
        v@.len() >= 1,
    decreases m,
{
    if m < radix {
        let mut v: Vec<char> = Vec::new();
        v.push(digit_chr_exec(m as u8));
        proof {
            assert(v@ =~= seq![digit_chr(m as int)]);
            assert(m as int >= 0 && (m as int) < radix as int ==> (m as int) % (radix as int)
                == m as int);
        }
        v
    } else {
        let mut v = radix_chars_exec(m / radix, radix);
        v.push(digit_chr_exec((m % radix) as u8));
        v
    }
}

/// The magnitude of `n` as an unsigned value.
fn i128_mag(n: i128) -> (m: u128)
    ensures
        m as int == (if n >= 0 {
            n as int
        } else {
            -(n as int)
        }),
{
    if n >= 0 {
        n as u128
    } else {
        ((-(n + 1)) as u128) + 1
    }
}

/// The signed decimal string of `n`, executably.
pub fn i128_dec_string(n: i128) -> (s: String)
    ensures
        s@ == dec_str(n as int),
{
    let m = i128_mag(n);
    let v = radix_chars_exec(m, 10);
    let mut s = String::new();
    if n < 0 {
        push_char(&mut s, '-');
    }
    let digits = range_to_string(&v, 0, v.len());
    proof {
        assert(v@.subrange(0, v@.len() as int) =~= v@);
    }
    let s2 = s.concat(digits.as_str());
    proof {
        if n >= 0 {
            assert(s2@ =~= dec_str(n as int));
        } else {
            assert(s2@ =~= seq!['-'] + radix_chars(-(n as int), 10));
        }
    }
    s2
}

/// `s` with one space inserted after every `every` characters, counted from
/// the right; the leftmost group may be shorter.
pub open spec fn group_spec(s: Seq<char>, every: int) -> Seq<char>
    decreases s.len(),
{
    if every <= 0 || s.len() <= every {
        s
    } else {
        group_spec(s.take(s.len() - every), every) + seq![' '] + s.skip(s.len() - every)
    }
}

/// The length of a grouped string: one space per started group past the
/// first.
pub proof fn lemma_group_len(s: Seq<char>, every: int)
    requires
        every >= 1,
    ensures
        group_spec(s, every).len() == s.len() + (if s.len() == 0 {
            0int
        } else {
            (s.len() - 1) / every
        }),
    decreases s.len(),
{
    if s.len() > every {
        lemma_group_len(s.take(s.len() - every), every);
        lemma_div_plus_one(s.len() - every - 1, every);
    } else if s.len() >= 1 {
        assert((s.len() - 1) / every == 0) by {
            vstd::arithmetic::div_mod::lemma_basic_div(s.len() - 1, every);
        }
    }
}

/// Groups the characters of `v`, per [`group_spec`].
fn group_exec(v: &Vec<char>, end: usize, every: usize) -> (s: String)
    requires
        end <= v@.len(),
    ensures
        s@ == group_spec(v@.take(end as int), every as int),
    decreases end,
{
    if every == 0 || end <= every {
        let s = range_to_string(v, 0, end);
        proof {
            assert(v@.subrange(0, end as int) =~= v@.take(end as int));
        }
        s
    } else {
        let mut s = group_exec(v, end - every, every);
        proof {
            assert(v@.take(end as int).take(end - every) =~= v@.take(end - every));
            assert(v@.take(end as int).skip(end - every) =~= v@.subrange(
                end - every,
                end as int,
            ));
        }
        push_char(&mut s, ' ');
        let tail = range_to_string(v, end - every, end);
        s.concat(tail.as_str())
    }
}

/// A run of `k` dashes.
pub open spec fn dashes(k: int) -> Seq<char>
    decreases k,
{
    if k <= 0 {
        Seq::empty()
    } else {
        dashes(k - 1).push('-')
    }
}

/// A bit index, right-aligned with dashes to the given width.
pub open spec fn ruler_field(i: int, width: int) -> Seq<char> {
    let ds = radix_chars(i, 10);
    if ds.len() >= width {
        ds
    } else {
        dashes(width - ds.len()) + ds
    }
}

/// The ruler fields for bit indexes `every`, `2 * every`, …, `k * every`,
/// largest first, ending in the fixed origin marker.
pub open spec fn ruler_parts(k: int, every: int) -> Seq<char>
    decreases k,
{
    if k <= 0 {
        seq!['-', '-', '-', '-', '0', ' ']
    } else {
        ruler_field(k * every, every + 1) + ruler_parts(k - 1, every)
    }
}

/// The ruler under a grouped string of `len` characters.
pub open spec fn ruler_spec(len: int, every: int) -> Seq<char> {
    if len >= 1 && every >= 1 {
        ruler_parts((len - 1) / every, every)
    } else {
        ruler_parts(0, every)
    }
}

/// A run of `k` dashes, executably.
fn dashes_exec(k: usize) -> (s: String)
    ensures
        s@ == dashes(k as int),
{
    let mut s = String::new();
    let mut i: usize = 0;
    while i < k
        invariant
            i <= k,
            s@ == dashes(i as int),
        decreases k - i,
    {
        push_char(&mut s, '-');
        i = i + 1;
    }
    s
}

/// One ruler field, executably.
fn ruler_field_exec(i: u128, width: usize) -> (s: String)
    ensures
        s@ == ruler_field(i as int, width as int),
{
    let ds = radix_chars_exec(i, 10);
    let digits = range_to_string(&ds, 0, ds.len());
    proof {
        assert(ds@.subrange(0, ds@.len() as int) =~= ds@);
    }
    if ds.len() >= width {
        digits
    } else {
        let d = dashes_exec(width - ds.len());
        d.concat(digits.as_str())
    }
}

/// The fixed origin marker of a ruler.
fn ruler_origin() -> (s: String)
    ensures
        s@ == seq!['-', '-', '-', '-', '0', ' '],
{
    let mut tail = String::new();
    push_char(&mut tail, '-');
    push_char(&mut tail, '-');
    push_char(&mut tail, '-');
    push_char(&mut tail, '-');
    push_char(&mut tail, '0');
    push_char(&mut tail, ' ');
    proof {
        assert(tail@ =~= seq!['-', '-', '-', '-', '0', ' ']);
    }
    tail
}

/// The ruler under a grouped string, executably.
fn ruler_exec(len: usize, every: usize) -> (s: String)
    ensures
        s@ == ruler_spec(len as int, every as int),
{
    if len == 0 || every == 0 {
        return ruler_origin();
    }
    let kmax: usize = (len - 1) / every;
    proof {
        vstd::arithmetic::div_mod::lemma_fundamental_div_mod(len - 1, every as int);
        assert(every * kmax <= len - 1);
    }
    let mut s = String::new();
    let mut k: usize = kmax;
    while k > 0
        invariant
            k <= kmax,
            1 <= every,
            1 <= len,
            every * kmax <= len - 1,
            ruler_parts(kmax as int, every as int) == s@ + ruler_parts(k as int, every as int),
        decreases k,
    {
        proof {
            assert(k * every <= every * kmax) by (nonlinear_arith)
                requires
                    k <= kmax && every >= 0usize,
            ;
            assert(every * 1 <= every * kmax) by (nonlinear_arith)
                requires
                    1 <= kmax && every >= 0usize,
            ;
        }
        let f = ruler_field_exec((k * every) as u128, every + 1);
        let ghost before = s@;
        s.append(f.as_str());
        proof {
            assert(before + (ruler_field(k as int * every as int, every as int + 1)
                + ruler_parts(k - 1, every as int)) =~= (before + ruler_field(
                k as int * every as int,
                every as int + 1,
            )) + ruler_parts(k - 1, every as int));
        }
        k = k - 1;
    }
    let tail = ruler_origin();
    let out = s.concat(tail.as_str());
    proof {
        assert(ruler_spec(len as int, every as int) == ruler_parts(kmax as int, every as int));
    }
    out
}

/// Every digit string holds at least one character.
pub proof fn lemma_radix_chars_nonempty(m: int, radix: int)
    ensures
        radix_chars(m, radix).len() >= 1,
    decreases m,
{
    if !(m < radix || m <= 0 || radix <= 1) {
        vstd::arithmetic::div_mod::lemma_div_decreases(m, radix);
        vstd::arithmetic::div_mod::lemma_div_pos_is_pos(m, radix);
        lemma_radix_chars_nonempty(m / radix, radix);
    }
}

/// A value below the `k`-th power of the radix has at most `k` digits.
proof fn lemma_radix_chars_len_bound(m: int, radix: int, k: nat)
    requires
        radix >= 2,
        k >= 1,
        0 <= m,
        m < pow(radix, k),
    ensures
        radix_chars(m, radix).len() <= k,
    decreases k,
{
    vstd::arithmetic::power::lemma_pow1(radix);
    if m < radix || m <= 0 {
    } else {
        assert(pow(radix, k) == radix * pow(radix, (k - 1) as nat)) by {
            vstd::arithmetic::power::lemma_pow_adds(radix, 1, (k - 1) as nat);
        }
        if k == 1 {
            assert(false);
        } else {
            vstd::arithmetic::div_mod::lemma_multiply_divide_lt(
                m,
                radix,
                pow(radix, (k - 1) as nat),
            );
            vstd::arithmetic::div_mod::lemma_div_pos_is_pos(m, radix);
            lemma_radix_chars_len_bound(m / radix, radix, (k - 1) as nat);
        }
    }
}

/// A run of dashes is as long as asked for.
proof fn lemma_dashes_len(k: int)
    ensures
        dashes(k).len() == (if k >= 0 {
            k
        } else {
            0int
        }),
    decreases k,
{
    if k > 0 {
        lemma_dashes_len(k - 1);
    }
}

/// Up to bit index 124, every 4-bit ruler field is exactly five characters.
proof fn lemma_ruler_len(k: int)
    requires
        0 <= k <= 31,
    ensures
        ruler_parts(k, 4).len() == 5 * k + 6,
    decreases k,
{
    if k > 0 {
        lemma_ruler_len(k - 1);
        vstd::arithmetic::power::lemma_pow0(10);
        vstd::arithmetic::power::lemma_pow1(10);
        vstd::arithmetic::power::lemma_pow_adds(10, 1, 1);
        vstd::arithmetic::power::lemma_pow_adds(10, 2, 1);
        assert(pow(10, 3) == 1000);
        lemma_radix_chars_len_bound(4 * k, 10, 3);
        lemma_radix_chars_nonempty(4 * k, 10);
        lemma_dashes_len(5 - radix_chars(4 * k, 10).len());
    }
}

/// A run of `k` spaces.
pub open spec fn spaces(k: int) -> Seq<char>
    decreases k,
{
    if k <= 0 {
        Seq::empty()
    } else {
        spaces(k - 1).push(' ')
    }
}

/// `s` padded on the left with spaces to width `w`.
pub open spec fn pad_left(s: Seq<char>, w: int) -> Seq<char> {
    spaces(w - s.len()) + s
}

/// A run of `k` spaces, executably.
fn spaces_exec(k: usize) -> (s: String)
    ensures
        s@ == spaces(k as int),
{
    let mut s = String::new();
    let mut i: usize = 0;
    while i < k
        invariant
            i <= k,
            s@ == spaces(i as int),
        decreases k - i,
    {
        push_char(&mut s, ' ');
        i = i + 1;
    }
    s
}

/// The two's-complement hexadecimal digit string of `n`.
pub open spec fn hex_repr(n: i128) -> Seq<char> {
    radix_chars(n as u128 as int, 16)
}

/// The two's-complement binary digit string of `n`.
pub open spec fn bin_repr(n: i128) -> Seq<char> {
    radix_chars(n as u128 as int, 2)
}

/// The decimal rendering: plain, or grouped in threes with two trailing
/// spaces.
pub open spec fn as_dec_spec(n: i128, simple: bool) -> Seq<char> {
    if simple {
        dec_str(n as int)
    } else {
        group_spec(dec_str(n as int), 3) + seq![' ', ' ']
    }
}

/// The hexadecimal rendering: plain, or grouped in threes with an `h`
/// marker.
pub open spec fn as_hex_spec(n: i128, simple: bool) -> Seq<char> {
    if simple {
        hex_repr(n)
    } else {
        group_spec(hex_repr(n), 3) + seq![' ', 'h']
    }
}

/// The binary rendering and its ruler: plain with an empty ruler, or
/// grouped in fours with a `b` marker over a bit-index ruler.
pub open spec fn as_bin_spec(n: i128, simple: bool) -> (Seq<char>, Seq<char>) {
    if simple {
        (bin_repr(n), Seq::empty())
    } else {
        (group_spec(bin_repr(n), 4) + seq![' ', 'b'], ruler_spec(bin_repr(n).len() as int, 4))
    }
}

/// The larger of three lengths.
pub open spec fn max3(a: int, b: int, c: int) -> int {
    if a >= b && a >= c {
        a
    } else if b >= c {
        b
    } else {
        c
    }
}

/// The full three-line rendering with colour codes: decimal, hexadecimal
/// and binary right-aligned to a common width, over the binary ruler.
pub open spec fn show_all_spec(n: i128) -> Seq<char> {
    let dec = as_dec_spec(n, false);
    let hex = as_hex_spec(n, false);
    let binp = as_bin_spec(n, false);
    let w = max3(dec.len() as int, hex.len() as int, binp.0.len() as int);
    "\u{1b}[36mDec   "@ + pad_left(dec, w) + "\u{1b}[0m\n"@ + "\u{1b}[92mHex   "@ + pad_left(
        hex,
        w,
    ) + "\u{1b}[0m\n"@ + "\u{1b}[91mBin   "@ + pad_left(binp.0, w) + "\u{1b}[0m\n"@
        + "\u{1b}[90m      "@ + binp.1.skip(binp.1.len() - binp.0.len()) + "\u{1b}[0m"@
}

/// The decimal rendering, executably.
pub fn i128_as_dec(n: i128, simple: bool) -> (s: String)
    ensures
        s@ == as_dec_spec(n, simple),
{
    let d = i128_dec_string(n);
    if simple {
        d
    } else {
        let chars = crate::chars::to_char_vec(d.as_str());
        let mut g = group_exec(&chars, chars.len(), 3);
        proof {
            assert(chars@.take(chars@.len() as int) =~= chars@);
        }
        push_char(&mut g, ' ');
        push_char(&mut g, ' ');
        proof {
            assert(g@ =~= group_spec(dec_str(n as int), 3) + seq![' ', ' ']);
        }
        g
    }
}

/// The hexadecimal rendering, executably.
pub fn i128_as_hex(n: i128, simple: bool) -> (s: String)
    ensures
        s@ == as_hex_spec(n, simple),
{
    let v = radix_chars_exec(n as u128, 16);
    if simple {
        let s = range_to_string(&v, 0, v.len());
        proof {
            assert(v@.subrange(0, v@.len() as int) =~= v@);
        }
        s
    } else {
        let mut g = group_exec(&v, v.len(), 3);
        proof {
            assert(v@.take(v@.len() as int) =~= v@);
        }
        push_char(&mut g, ' ');
        push_char(&mut g, 'h');
        proof {
            assert(g@ =~= group_spec(hex_repr(n), 3) + seq![' ', 'h']);
        }
        g
    }
}

/// The binary rendering and its ruler, executably.
pub fn i128_as_bin(n: i128, simple: bool) -> (s: (String, String))
    ensures
        s.0@ == as_bin_spec(n, simple).0,
        s.1@ == as_bin_spec(n, simple).1,
{
    let v = radix_chars_exec(n as u128, 2);
    if simple {
        let s = range_to_string(&v, 0, v.len());
        proof {
            assert(v@.subrange(0, v@.len() as int) =~= v@);
        }
        (s, String::new())
    } else {
        let mut g = group_exec(&v, v.len(), 4);
        proof {
            assert(v@.take(v@.len() as int) =~= v@);
        }
        push_char(&mut g, ' ');
        push_char(&mut g, 'b');
        let ruler = ruler_exec(v.len(), 4);
        proof {
            assert(g@ =~= group_spec(bin_repr(n), 4) + seq![' ', 'b']);
        }
        (g, ruler)
    }
}

/// The three-line rendering, executably.
pub fn i128_show_all(n: i128) -> (s: String)
    ensures
        s@ == show_all_spec(n),
{
    let dec = i128_as_dec(n, false);
    let hex = i128_as_hex(n, false);
    let binp = i128_as_bin(n, false);
    let bin0 = binp.0;
    let ruler = binp.1;
    let dl = dec.as_str().unicode_len();
    let hl = hex.as_str().unicode_len();
    let bl = bin0.as_str().unicode_len();
    let rl = ruler.as_str().unicode_len();
    let w = if dl >= hl && dl >= bl {
        dl
    } else if hl >= bl {
        hl
    } else {
        bl
    };
    proof {
        // The ruler is never shorter than the grouped binary string.
        let m = n as u128 as int;
        let lbits = bin_repr(n).len() as int;
        lemma_radix_chars_nonempty(m, 2);
        vstd::arithmetic::power::lemma_pow1(2);
        crate::eval::lemma_pow_two_128();
        lemma_radix_chars_len_bound(m, 2, 128);
        lemma_group_len(bin_repr(n), 4);
        vstd::arithmetic::div_mod::lemma_fundamental_div_mod(lbits - 1, 4);
        vstd::arithmetic::div_mod::lemma_div_is_ordered(lbits - 1, 127, 4);
        assert(127int / 4 == 31) by {
            vstd::arithmetic::div_mod::lemma_fundamental_div_mod(127, 4);
        }
        lemma_ruler_len((lbits - 1) / 4);
    }
    let skip = rl - bl;
    let rv = crate::chars::to_char_vec(ruler.as_str());
    let rt = range_to_string(&rv, skip, rv.len());
    let mut out = String::new();
    out.append("\u{1b}[36mDec   ");
    let p1 = spaces_exec(w - dl);
    out.append(p1.as_str());
    out.append(dec.as_str());
    out.append("\u{1b}[0m\n");
    out.append("\u{1b}[92mHex   ");
    let p2 = spaces_exec(w - hl);
    out.append(p2.as_str());
    out.append(hex.as_str());
    out.append("\u{1b}[0m\n");
    out.append("\u{1b}[91mBin   ");
    let p3 = spaces_exec(w - bl);
    out.append(p3.as_str());
    out.append(bin0.as_str());
    out.append("\u{1b}[0m\n");
    out.append("\u{1b}[90m      ");
    out.append(rt.as_str());
    out.append("\u{1b}[0m");
    proof {
        assert(out@ =~= show_all_spec(n));
    }
    out
}

/// Renders a number as grouped decimal, hexadecimal and binary text, with a
/// bit-position ruler.
pub trait PresentNum {
    /// The decimal rendering: plain, or grouped in threes.
    fn as_dec(&self, simple: bool) -> String;

    /// The hexadecimal rendering: plain, or grouped in threes with `h`.
    fn as_hex(&self, simple: bool) -> String;

    /// The binary rendering and its bit-index ruler.
    fn as_bin(&self, simple: bool) -> (String, String);

    /// All three renderings aligned, with colour codes and the ruler.
    fn show_all(&self) -> String;

    /// Groups a digit string from the right and builds the matching ruler.
    fn group_str(s: String, every: usize) -> (String, String);
}

impl PresentNum for i128 {
    fn as_dec(&self, simple: bool) -> (s: String)
        ensures
            s@ == as_dec_spec(*self, simple),
    {
        i128_as_dec(*self, simple)
    }

    fn as_hex(&self, simple: bool) -> (s: String)
        ensures
            s@ == as_hex_spec(*self, simple),
    {
        i128_as_hex(*self, simple)
    }

    fn as_bin(&self, simple: bool) -> (s: (String, String))
        ensures
            s.0@ == as_bin_spec(*self, simple).0,
            s.1@ == as_bin_spec(*self, simple).1,
    {
        i128_as_bin(*self, simple)
    }

    fn show_all(&self) -> (s: String)
        ensures
            s@ == show_all_spec(*self),
    {
        i128_show_all(*self)
    }

    fn group_str(s: String, every: usize) -> (r: (String, String))
        ensures
            r.0@ == group_spec(s@, every as int),
            r.1@ == ruler_spec(s@.len() as int, every as int),
    {
        let chars = crate::chars::to_char_vec(s.as_str());
        let g = group_exec(&chars, chars.len(), every);
        proof {
            assert(chars@.take(chars@.len() as int) =~= chars@);
        }
        let ruler = ruler_exec(chars.len(), every);
        (g, ruler)
    }
}

} // verus!
