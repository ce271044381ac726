//! Small character and string helpers shared by the lexer, the numeric
//! decoder and the renderers.

use vstd::prelude::*;
use vstd::string::StrSliceExecFns;

verus! {

/// A decimal digit.
pub open spec fn is_dec_digit(c: char) -> bool {
    '0' <= c && c <= '9'
}

/// An ASCII letter.
pub open spec fn is_ascii_letter(c: char) -> bool {
    ('a' <= c && c <= 'z') || ('A' <= c && c <= 'Z')
}

/// The character class the lexer treats as alphanumeric: ASCII digits and
/// letters.  Numeric tokens and (after the sigil) variable names are maximal
/// runs of these.
pub open spec fn is_word_char(c: char) -> bool {
    is_dec_digit(c) || is_ascii_letter(c)
}

/// The character class the lexer skips and glues across inside numeric
/// tokens: ASCII whitespace.
pub open spec fn is_space_char(c: char) -> bool {
    c == ' ' || c == '\t' || c == '\n' || c == '\r' || c == '\x0c'
}

/// Executable check for [`is_word_char`].
pub fn word_char(c: char) -> (b: bool)
    ensures
        b == is_word_char(c),
{
    ('0' <= c && c <= '9') || ('a' <= c && c <= 'z') || ('A' <= c && c <= 'Z')
}

/// Executable check for [`is_space_char`].
pub fn space_char(c: char) -> (b: bool)
    ensures
        b == is_space_char(c),
{
    c == ' ' || c == '\t' || c == '\n' || c == '\r' || c == '\x0c'
}

/// Copies the characters of a string slice into a vector, so that the rest of
/// the crate can work with plain indexed characters.
pub fn to_char_vec(s: &str) -> (v: Vec<char>)
    ensures
        v@ == s@,
{
    let n = s.unicode_len();
    let mut v: Vec<char> = Vec::new();
    let mut i: usize = 0;
    while i < n
        invariant
            n == s@.len(),
            i <= n,
            v@ == s@.subrange(0, i as int),
        decreases n - i,
    {
        v.push(s.get_char(i));
        i = i + 1;
    }
    proof {
        assert(v@ =~= s@);
    }
    v
}

/// Relies on `String::push`: appends one character at the end of the string.
#[verifier::external_body]
pub fn push_char(s: &mut String, c: char)
    ensures
        final(s)@ == old(s)@.push(c),
{
    s.push(c)
}

/// Where a scan of the input stops: on the first character that ends a
/// numeric token, a variable name, a parameter list, a run of one repeated
/// symbol, or a comma-separated piece.
#[derive(Clone, Copy)]
pub enum CharStop {
    /// Neither alphanumeric nor whitespace: ends a numeric token.
    NonNumeric,
    /// Neither alphanumeric nor an underscore: ends a variable name.
    NonVar,
    /// A closing `|`: ends a parameter list.
    Bar,
    /// Any other character than the given one: ends a symbol run.
    NotRun(char),
    /// A comma: ends one piece of a parameter list's interior.
    Comma,
}

/// Whether the scan for `stop` stops at `c`.
pub open spec fn spec_stops(stop: CharStop, c: char) -> bool {
    match stop {
        CharStop::NonNumeric => !is_word_char(c) && !is_space_char(c),
        CharStop::NonVar => !is_word_char(c) && c != '_',
        CharStop::Bar => c == '|',
        CharStop::NotRun(r) => c != r,
        CharStop::Comma => c == ',',
    }
}

/// Executable check for [`spec_stops`].
pub fn stops(stop: CharStop, c: char) -> (b: bool)
    ensures
        b == spec_stops(stop, c),
{
    match stop {
        CharStop::NonNumeric => !(word_char(c) || space_char(c)),
        CharStop::NonVar => !(word_char(c) || c == '_'),
        CharStop::Bar => c == '|',
        CharStop::NotRun(r) => c != r,
        CharStop::Comma => c == ',',
    }
}

/// The first index at or after `from` whose character stops the scan, or the
/// end of the sequence.
pub open spec fn scan_end(s: Seq<char>, from: int, stop: CharStop) -> int
    decreases s.len() - from,
{
    if from < 0 || from >= s.len() {
        s.len() as int
    } else if spec_stops(stop, s[from]) {
        from
    } else {
        scan_end(s, from + 1, stop)
    }
}

/// A scan ends between its start and the end of the sequence.
pub proof fn lemma_scan_end_bounds(s: Seq<char>, from: int, stop: CharStop)
    requires
        0 <= from <= s.len(),
    ensures
        from <= scan_end(s, from, stop) <= s.len(),
    decreases s.len() - from,
{
    if from < s.len() && !spec_stops(stop, s[from]) {
        lemma_scan_end_bounds(s, from + 1, stop);
    }
}

/// Executable scan: the first index at or after `from` whose character stops
/// the scan.
pub fn scan_from(cs: &Vec<char>, from: usize, stop: CharStop) -> (e: usize)
    requires
        from <= cs@.len(),
    ensures
        e == scan_end(cs@, from as int, stop),
        from <= e <= cs@.len(),
{
    let mut i = from;
    while i < cs.len() && !stops(stop, cs[i])
        invariant
            from <= i <= cs@.len(),
            scan_end(cs@, from as int, stop) == scan_end(cs@, i as int, stop),
        decreases cs@.len() - i,
    {
        i = i + 1;
    }
    proof {
        lemma_scan_end_bounds(cs@, i as int, stop);
    }
    i
}

/// The first index at or after `pos` holding a non-whitespace character.
pub open spec fn skip_ws(s: Seq<char>, pos: int) -> int
    decreases s.len() - pos,
{
    if pos < 0 || pos >= s.len() {
        s.len() as int
    } else if is_space_char(s[pos]) {
        skip_ws(s, pos + 1)
    } else {
        pos
    }
}

/// Skipping whitespace stays between the start and the end of the sequence.
pub proof fn lemma_skip_ws_bounds(s: Seq<char>, pos: int)
    requires
        0 <= pos <= s.len(),
    ensures
        pos <= skip_ws(s, pos) <= s.len(),
        skip_ws(s, pos) < s.len() ==> !is_space_char(s[skip_ws(s, pos)]),
    decreases s.len() - pos,
{
    if pos < s.len() && is_space_char(s[pos]) {
        lemma_skip_ws_bounds(s, pos + 1);
    }
}

/// `s` with every whitespace character removed.
pub open spec fn strip_spaces(s: Seq<char>) -> Seq<char>
    decreases s.len(),
{
    if s.len() == 0 {
        Seq::empty()
    } else if is_space_char(s.last()) {
        strip_spaces(s.drop_last())
    } else {
        strip_spaces(s.drop_last()).push(s.last())
    }
}

/// The index just after the last non-whitespace character strictly before
/// `j`, or 0 when there is none.
pub open spec fn rskip_ws(s: Seq<char>, j: int) -> int
    decreases j,
{
    if j <= 0 || j > s.len() {
        0
    } else if is_space_char(s[j - 1]) {
        rskip_ws(s, j - 1)
    } else {
        j
    }
}

/// `s` without leading and trailing whitespace.
pub open spec fn spec_trim(s: Seq<char>) -> Seq<char> {
    let a = skip_ws(s, 0);
    let b = rskip_ws(s, s.len() as int);
    if a >= b {
        Seq::empty()
    } else {
        s.subrange(a, b)
    }
}

/// Copies `cs[a..b]` into a fresh string.
pub fn range_to_string(cs: &Vec<char>, a: usize, b: usize) -> (s: String)
    requires
        a <= b <= cs@.len(),
    ensures
        s@ == cs@.subrange(a as int, b as int),
{
    let mut s = String::new();
    let mut i = a;
    while i < b
        invariant
            a <= i <= b <= cs@.len(),
            s@ == cs@.subrange(a as int, i as int),
        decreases b - i,
    {
        proof {
            assert(cs@.subrange(a as int, i + 1).drop_last() =~= cs@.subrange(a as int, i as int));
            assert(cs@.subrange(a as int, i + 1) =~= cs@.subrange(a as int, i as int).push(
                cs@[i as int],
            ));
        }
        push_char(&mut s, cs[i]);
        i = i + 1;
    }
    s
}

/// Copies `cs[a..b]` into a fresh string, dropping whitespace.
pub fn strip_range_to_string(cs: &Vec<char>, a: usize, b: usize) -> (s: String)
    requires
        a <= b <= cs@.len(),
    ensures
        s@ == strip_spaces(cs@.subrange(a as int, b as int)),
{
    let mut s = String::new();
    let mut i = a;
    while i < b
        invariant
            a <= i <= b <= cs@.len(),
            s@ == strip_spaces(cs@.subrange(a as int, i as int)),
        decreases b - i,
    {
        proof {
            assert(cs@.subrange(a as int, i + 1).drop_last() =~= cs@.subrange(a as int, i as int));
            assert(cs@.subrange(a as int, i + 1).last() == cs@[i as int]);
        }
        if !space_char(cs[i]) {
            push_char(&mut s, cs[i]);
        }
        i = i + 1;
    }
    s
}

/// Copies `cs[a..b]` into a fresh vector.
pub fn sub_vec(cs: &Vec<char>, a: usize, b: usize) -> (v: Vec<char>)
    requires
        a <= b <= cs@.len(),
    ensures
        v@ == cs@.subrange(a as int, b as int),
{
    let mut v: Vec<char> = Vec::new();
    let mut i = a;
    while i < b
        invariant
            a <= i <= b <= cs@.len(),
            v@ == cs@.subrange(a as int, i as int),
        decreases b - i,
    {
        proof {
            assert(cs@.subrange(a as int, i + 1) =~= cs@.subrange(a as int, i as int).push(
                cs@[i as int],
            ));
        }
        v.push(cs[i]);
        i = i + 1;
    }
    v
}

/// The whole vector, without leading and trailing whitespace, as a string.
pub fn trim_to_string(v: &Vec<char>) -> (s: String)
    ensures
        s@ == spec_trim(v@),
{
    let n = v.len();
    let mut a: usize = 0;
    while a < n && space_char(v[a])
        invariant
            0 <= a <= n == v@.len(),
            skip_ws(v@, 0) == skip_ws(v@, a as int),
        decreases n - a,
    {
        a = a + 1;
    }
    proof {
        lemma_skip_ws_bounds(v@, a as int);
    }
    if a == n {
        proof {
            lemma_rskip_ws_bounds(v@, v@.len() as int);
        }
        return String::new();
    }
    let mut b: usize = n;
    while b > a + 1 && space_char(v[b - 1])
        invariant
            a < b <= n == v@.len(),
            rskip_ws(v@, n as int) == rskip_ws(v@, b as int),
        decreases b,
    {
        b = b - 1;
    }
    proof {
        if b == a + 1 && is_space_char(v@[b - 1]) {
            assert(false);  // v[a] is not whitespace
        }
    }
    range_to_string(v, a, b)
}

/// The right skip never goes below 0 nor above its start.
pub proof fn lemma_rskip_ws_bounds(s: Seq<char>, j: int)
    requires
        0 <= j <= s.len(),
    ensures
        0 <= rskip_ws(s, j) <= j,
    decreases j,
{
    if j > 0 && is_space_char(s[j - 1]) {
        lemma_rskip_ws_bounds(s, j - 1);
    }
}

} // verus!
