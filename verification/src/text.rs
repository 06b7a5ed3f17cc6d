//! Character-level helpers shared by the parsers and writers: building
//! strings, decimal and hexadecimal numerals, and the whitespace classes
//! that `char::is_whitespace` and `char::is_ascii_whitespace` define.
use vstd::prelude::*;
use vstd::string::*;

verus! {

/// Appends one character (`String::push`).
#[verifier::external_body]
pub fn push_char(s: &mut String, c: char)
    ensures
        final(s)@ == old(s)@.push(c),
{
    s.push(c);
}

/// Appends a string slice.
pub fn push_str(s: &mut String, t: &str)
    ensures
        final(s)@ == old(s)@ + t@,
{
    s.append(t);
}

/// A fresh `String` holding the characters of `t`.
pub fn string_of(t: &str) -> (r: String)
    ensures
        r@ == t@,
{
    t.to_owned()
}

/// The characters of `s`, in order.
pub fn chars_of(s: &str) -> (r: Vec<char>)
    ensures
        r@ == s@,
{
    let mut out: Vec<char> = Vec::new();
    for c in it: s.chars()
        invariant
            out@ == it.seq().take(it.index() as int),
            it.seq() == s@,
    {
        out.push(c);
    }
    out
}

/// The characters `v[lo..hi]` as a `String`.
pub fn string_from_range(v: &Vec<char>, lo: usize, hi: usize) -> (r: String)
    requires
        lo <= hi <= v@.len(),
    ensures
        r@ == v@.subrange(lo as int, hi as int),
{
    let mut out = String::new();
    let mut i = lo;
    while i < hi
        invariant
            lo <= i <= hi <= v@.len(),
            out@ == v@.subrange(lo as int, i as int),
        decreases hi - i,
    {
        push_char(&mut out, v[i]);
        i = i + 1;
    }
    out
}

/// Appends the characters `v[lo..hi]`.
pub fn push_range(out: &mut String, v: &Vec<char>, lo: usize, hi: usize)
    requires
        lo <= hi <= v@.len(),
    ensures
        final(out)@ == old(out)@ + v@.subrange(lo as int, hi as int),
{
    let ghost o = out@;
    let mut i = lo;
    while i < hi
        invariant
            lo <= i <= hi <= v@.len(),
            out@ == o + v@.subrange(lo as int, i as int),
        decreases hi - i,
    {
        push_char(out, v[i]);
        proof {
            assert(v@.subrange(lo as int, i + 1) =~= v@.subrange(lo as int, i as int).push(v@[i as int]));
        }
        i = i + 1;
    }
}

/// The characters `v[lo..hi]` as a new vector.
pub fn chars_range(v: &Vec<char>, lo: usize, hi: usize) -> (r: Vec<char>)
    requires
        lo <= hi <= v@.len(),
    ensures
        r@ == v@.subrange(lo as int, hi as int),
{
    let mut out: Vec<char> = Vec::new();
    let mut i = lo;
    while i < hi
        invariant
            lo <= i <= hi <= v@.len(),
            out@ == v@.subrange(lo as int, i as int),
        decreases hi - i,
    {
        out.push(v[i]);
        i = i + 1;
    }
    out
}

/// A `String` holding exactly the characters of `v`.
pub fn string_from_chars(v: &Vec<char>) -> (r: String)
    ensures
        r@ == v@,
{
    let r = string_from_range(v, 0, v.len());
    proof {
        assert(v@.subrange(0, v@.len() as int) =~= v@);
    }
    r
}

/// Character-sequence equality of two string slices.
pub fn str_eq(a: &str, b: &str) -> (r: bool)
    ensures
        r == (a@ == b@),
{
    let x = a.to_owned();
    let y = b.to_owned();
    x == y
}

/// `str::starts_with`.
pub fn str_starts_with(s: &str, p: &str) -> (r: bool)
    ensures
        r == (p@.len() <= s@.len() && s@.subrange(0, p@.len() as int) == p@),
{
    let v = chars_of(s);
    let w = chars_of(p);
    starts_with_at(&v, 0, &w)
}

/// `str::ends_with`.
pub fn str_ends_with(s: &str, p: &str) -> (r: bool)
    ensures
        r == (p@.len() <= s@.len() && s@.subrange(s@.len() - p@.len(), s@.len() as int) == p@),
{
    let v = chars_of(s);
    let w = chars_of(p);
    if w.len() > v.len() {
        return false;
    }
    starts_with_at(&v, v.len() - w.len(), &w)
}

/// Whether the characters of `v[lo..hi]` equal `t`.
pub fn range_eq(v: &Vec<char>, lo: usize, hi: usize, t: &Vec<char>) -> (r: bool)
    requires
        lo <= hi <= v@.len(),
    ensures
        r == (v@.subrange(lo as int, hi as int) == t@),
{
    if hi - lo != t.len() {
        proof {
            assert(v@.subrange(lo as int, hi as int).len() != t@.len());
        }
        return false;
    }
    let mut i: usize = 0;
    while i < t.len()
        invariant
            lo <= hi <= v@.len(),
            hi - lo == t@.len(),
            0 <= i <= t@.len(),
            forall|k: int| 0 <= k < i ==> v@[lo + k] == t@[k],
        decreases t@.len() - i,
    {
        if v[lo + i] != t[i] {
            proof {
                assert(v@.subrange(lo as int, hi as int)[i as int] != t@[i as int]);
            }
            return false;
        }
        i = i + 1;
    }
    proof {
        assert(v@.subrange(lo as int, hi as int) =~= t@);
    }
    true
}

/// Whether `t` occurs in `s` at position `p`.
pub open spec fn starts_at(s: Seq<char>, p: int, t: Seq<char>) -> bool {
    0 <= p && p + t.len() <= s.len() && s.subrange(p, p + t.len()) == t
}

/// Exec form of [`starts_at`].
pub fn starts_with_at(v: &Vec<char>, p: usize, t: &Vec<char>) -> (r: bool)
    ensures
        r == starts_at(v@, p as int, t@),
{
    if p > v.len() || v.len() - p < t.len() {
        return false;
    }
    range_eq(v, p, p + t.len(), t)
}

/// Rust's `char::is_whitespace`: the Unicode `White_Space` property.
pub open spec fn is_ws(c: char) -> bool {
    ||| c == '\t'
    ||| c == '\n'
    ||| c == '\u{0B}'
    ||| c == '\u{0C}'
    ||| c == '\r'
    ||| c == ' '
    ||| c == '\u{85}'
    ||| c == '\u{A0}'
    ||| c == '\u{1680}'
    ||| ('\u{2000}' <= c && c <= '\u{200A}')
    ||| c == '\u{2028}'
    ||| c == '\u{2029}'
    ||| c == '\u{202F}'
    ||| c == '\u{205F}'
    ||| c == '\u{3000}'
}

pub fn is_whitespace(c: char) -> (r: bool)
    ensures
        r == is_ws(c),
{
    c == '\t' || c == '\n' || c == '\u{0B}' || c == '\u{0C}' || c == '\r' || c == ' '
        || c == '\u{85}' || c == '\u{A0}' || c == '\u{1680}' || ('\u{2000}' <= c && c
        <= '\u{200A}') || c == '\u{2028}' || c == '\u{2029}' || c == '\u{202F}' || c
        == '\u{205F}' || c == '\u{3000}'
}

/// Rust's `char::is_ascii_whitespace`.
pub open spec fn is_ascii_ws(c: char) -> bool {
    c == ' ' || c == '\t' || c == '\n' || c == '\u{0C}' || c == '\r'
}

pub fn is_ascii_whitespace(c: char) -> (r: bool)
    ensures
        r == is_ascii_ws(c),
{
    c == ' ' || c == '\t' || c == '\n' || c == '\u{0C}' || c == '\r'
}

pub open spec fn all_ws(s: Seq<char>) -> bool {
    forall|i: int| 0 <= i < s.len() ==> is_ws(#[trigger] s[i])
}

pub open spec fn all_ascii_ws(s: Seq<char>) -> bool {
    forall|i: int| 0 <= i < s.len() ==> is_ascii_ws(#[trigger] s[i])
}

/// Whether `v[lo..hi]` is all (Unicode) whitespace.
pub fn range_all_ws(v: &Vec<char>, lo: usize, hi: usize) -> (r: bool)
    requires
        lo <= hi <= v@.len(),
    ensures
        r == all_ws(v@.subrange(lo as int, hi as int)),
{
    let mut i = lo;
    while i < hi
        invariant
            lo <= i <= hi <= v@.len(),
            forall|k: int| lo <= k < i ==> is_ws(v@[k]),
        decreases hi - i,
    {
        if !is_whitespace(v[i]) {
            proof {
                assert(!is_ws(v@.subrange(lo as int, hi as int)[i - lo]));
            }
            return false;
        }
        i = i + 1;
    }
    proof {
        assert forall|k: int| 0 <= k < hi - lo implies is_ws(
            #[trigger] v@.subrange(lo as int, hi as int)[k],
        ) by {
            assert(v@.subrange(lo as int, hi as int)[k] == v@[lo + k]);
        }
    }
    true
}

/// Whether `v[lo..hi]` is all ASCII whitespace.
pub fn range_all_ascii_ws(v: &Vec<char>, lo: usize, hi: usize) -> (r: bool)
    requires
        lo <= hi <= v@.len(),
    ensures
        r == all_ascii_ws(v@.subrange(lo as int, hi as int)),
{
    let mut i = lo;
    while i < hi
        invariant
            lo <= i <= hi <= v@.len(),
            forall|k: int| lo <= k < i ==> is_ascii_ws(v@[k]),
        decreases hi - i,
    {
        if !is_ascii_whitespace(v[i]) {
            proof {
                assert(!is_ascii_ws(v@.subrange(lo as int, hi as int)[i - lo]));
            }
            return false;
        }
        i = i + 1;
    }
    proof {
        assert forall|k: int| 0 <= k < hi - lo implies is_ascii_ws(
            #[trigger] v@.subrange(lo as int, hi as int)[k],
        ) by {
            assert(v@.subrange(lo as int, hi as int)[k] == v@[lo + k]);
        }
    }
    true
}

/// The first position `q >= p` holding `c`, or `s.len()` when there is none.
pub open spec fn find_from(s: Seq<char>, p: int, c: char) -> int
    decreases s.len() - p,
{
    if p >= s.len() {
        s.len() as int
    } else if s[p] == c {
        p
    } else {
        find_from(s, p + 1, c)
    }
}

/// `find_from` stops at the first occurrence.
pub proof fn lemma_find_first(s: Seq<char>, p: int, q: int, c: char)
    requires
        0 <= p <= q < s.len(),
        s[q] == c,
        forall|k: int| p <= k < q ==> s[k] != c,
    ensures
        find_from(s, p, c) == q,
    decreases q - p,
{
    if p < q {
        lemma_find_first(s, p + 1, q, c);
    }
}

/// `find_from` finds nothing when `c` does not occur from `p` on.
pub proof fn lemma_find_none(s: Seq<char>, p: int, c: char)
    requires
        0 <= p <= s.len(),
        forall|k: int| p <= k < s.len() ==> s[k] != c,
    ensures
        find_from(s, p, c) == s.len(),
    decreases s.len() - p,
{
    if p < s.len() {
        lemma_find_none(s, p + 1, c);
    }
}

/// Searching a suffix is searching the whole from further on.
pub proof fn lemma_find_suffix(s: Seq<char>, p: int, k: int, c: char)
    requires
        0 <= p <= s.len(),
        0 <= k,
    ensures
        find_from(s.subrange(p, s.len() as int), k, c) == find_from(s, p + k, c) - p,
    decreases s.len() - p - k,
{
    let t = s.subrange(p, s.len() as int);
    if p + k < s.len() {
        assert(t[k] == s[p + k]);
        lemma_find_suffix(s, p, k + 1, c);
    }
}

pub proof fn lemma_find_from(s: Seq<char>, p: int, c: char)
    requires
        0 <= p <= s.len(),
    ensures
        p <= find_from(s, p, c) <= s.len(),
        find_from(s, p, c) < s.len() ==> s[find_from(s, p, c)] == c,
        forall|k: int| p <= k < find_from(s, p, c) ==> s[k] != c,
    decreases s.len() - p,
{
    if p < s.len() && s[p] != c {
        lemma_find_from(s, p + 1, c);
    }
}

pub fn find_char_from(v: &Vec<char>, p: usize, c: char) -> (r: usize)
    requires
        p <= v@.len(),
    ensures
        r == find_from(v@, p as int, c),
{
    let mut i = p;
    while i < v.len()
        invariant
            p <= i <= v@.len(),
            find_from(v@, p as int, c) == find_from(v@, i as int, c),
        decreases v@.len() - i,
    {
        if v[i] == c {
            return i;
        }
        i = i + 1;
    }
    i
}

/// The position of the first decimal digit character `d` (0-9).
pub open spec fn digit_char(d: int) -> char
    recommends
        0 <= d < 10,
{
    if d == 0 {
        '0'
    } else if d == 1 {
        '1'
    } else if d == 2 {
        '2'
    } else if d == 3 {
        '3'
    } else if d == 4 {
        '4'
    } else if d == 5 {
        '5'
    } else if d == 6 {
        '6'
    } else if d == 7 {
        '7'
    } else if d == 8 {
        '8'
    } else {
        '9'
    }
}

/// Decimal notation of `n` (no sign, no leading zeros).
pub open spec fn dec(n: nat) -> Seq<char>
    decreases n,
{
    if n < 10 {
        seq![digit_char(n as int)]
    } else {
        dec(n / 10).push(digit_char((n % 10) as int))
    }
}

proof fn lemma_digit_char(d: int)
    requires
        0 <= d < 10,
    ensures
        is_digit(digit_char(d)),
        digit_value(digit_char(d)) == d,
{
}

/// Decimal notation reads back as its number.
pub proof fn lemma_dec_digits(n: nat)
    ensures
        dec(n).len() >= 1,
        all_digits(dec(n), false),
        digits_value(dec(n), false) == n,
    decreases n,
{
    if n < 10 {
        lemma_digit_char(n as int);
        let s = dec(n);
        assert(s.drop_last() =~= Seq::<char>::empty());
        assert(s.last() == digit_char(n as int));
        assert(digits_value(s, false) == digits_value(s.drop_last(), false) * 10 + digit_value(s.last()));
    } else {
        lemma_dec_digits(n / 10);
        lemma_digit_char((n % 10) as int);
        let s = dec(n);
        assert(s.drop_last() =~= dec(n / 10));
        assert(s.last() == digit_char((n % 10) as int));
        assert(digits_value(s, false) == digits_value(s.drop_last(), false) * 10 + digit_value(s.last()));
        assert(n == (n / 10) * 10 + n % 10) by (nonlinear_arith);
        assert forall|i: int| 0 <= i < s.len() implies is_digit(#[trigger] s[i]) by {
            if i < s.len() - 1 {
                assert(s[i] == dec(n / 10)[i]);
            }
        }
    }
}

/// `from_str_radix` reads a decimal notation back.
pub proof fn lemma_parse_dec(n: nat, max: int)
    requires
        n <= max,
    ensures
        parse_unsigned(dec(n), false, max) == Some(n as int),
{
    lemma_dec_digits(n);
    assert(is_digit(dec(n)[0]));
    assert(unsigned_digits(dec(n)) == dec(n));
}

fn digit(d: u64) -> (c: char)
    requires
        d < 10,
    ensures
        c == digit_char(d as int),
{
    if d == 0 {
        '0'
    } else if d == 1 {
        '1'
    } else if d == 2 {
        '2'
    } else if d == 3 {
        '3'
    } else if d == 4 {
        '4'
    } else if d == 5 {
        '5'
    } else if d == 6 {
        '6'
    } else if d == 7 {
        '7'
    } else if d == 8 {
        '8'
    } else {
        '9'
    }
}

/// Appends the decimal notation of `n`.
pub fn push_dec(out: &mut String, n: u64)
    ensures
        final(out)@ == old(out)@ + dec(n as nat),
    decreases n,
{
    if n >= 10 {
        push_dec(out, n / 10);
    }
    push_char(out, digit(n % 10));
    proof {
        if n >= 10 {
            assert(dec(n as nat) == dec((n / 10) as nat).push(digit_char((n % 10) as int)));
        }
    }
}

/// Appends the decimal notation of a 128-bit `n`.
pub fn push_dec_wide(out: &mut String, n: u128)
    ensures
        final(out)@ == old(out)@ + dec(n as nat),
    decreases n,
{
    if n >= 10 {
        push_dec_wide(out, n / 10);
    }
    push_char(out, digit((n % 10) as u64));
    proof {
        if n >= 10 {
            assert(dec(n as nat) == dec((n / 10) as nat).push(digit_char((n % 10) as int)));
        }
    }
}

/// The decimal notation of `n` as a `String`.
pub fn dec_string(n: u64) -> (r: String)
    ensures
        r@ == dec(n as nat),
{
    let mut s = String::new();
    push_dec(&mut s, n);
    proof {
        assert(s@ =~= dec(n as nat));
    }
    s
}

pub open spec fn is_digit(c: char) -> bool {
    '0' <= c && c <= '9'
}

pub open spec fn digit_value(c: char) -> int {
    c as int - '0' as int
}

pub open spec fn is_hex_digit(c: char) -> bool {
    ('0' <= c && c <= '9') || ('a' <= c && c <= 'f') || ('A' <= c && c <= 'F')
}

pub open spec fn hex_value(c: char) -> int {
    if '0' <= c && c <= '9' {
        c as int - '0' as int
    } else if 'a' <= c && c <= 'f' {
        c as int - 'a' as int + 10
    } else {
        c as int - 'A' as int + 10
    }
}

/// Value of a digit string in base 10 or 16 (`hex`).
pub open spec fn digits_value(s: Seq<char>, hex: bool) -> int
    decreases s.len(),
{
    if s.len() == 0 {
        0
    } else {
        digits_value(s.drop_last(), hex) * (if hex {
            16int
        } else {
            10int
        }) + (if hex {
            hex_value(s.last())
        } else {
            digit_value(s.last())
        })
    }
}

pub open spec fn all_digits(s: Seq<char>, hex: bool) -> bool {
    forall|i: int|
        0 <= i < s.len() ==> (if hex {
            is_hex_digit(#[trigger] s[i])
        } else {
            is_digit(s[i])
        })
}

/// The digits that `from_str_radix` reads: an optional leading `+` is
/// dropped when something follows it.
pub open spec fn unsigned_digits(s: Seq<char>) -> Seq<char> {
    if s.len() > 1 && s[0] == '+' {
        s.drop_first()
    } else {
        s
    }
}

/// What Rust's `from_str_radix` (and `str::parse`) return for an unsigned
/// integer type whose largest value is `max`: the value, or `None` for an
/// empty string, a stray sign, a non-digit, or an overflow.
pub open spec fn parse_unsigned(s: Seq<char>, hex: bool, max: int) -> Option<int> {
    let d = unsigned_digits(s);
    if d.len() == 0 || !all_digits(d, hex) || digits_value(d, hex) > max {
        None
    } else {
        Some(digits_value(d, hex))
    }
}

proof fn lemma_digits_value_nonneg(s: Seq<char>, hex: bool)
    requires
        all_digits(s, hex),
    ensures
        digits_value(s, hex) >= 0,
    decreases s.len(),
{
    if s.len() > 0 {
        assert(all_digits(s.drop_last(), hex)) by {
            assert forall|i: int| 0 <= i < s.drop_last().len() implies (if hex {
                is_hex_digit(#[trigger] s.drop_last()[i])
            } else {
                is_digit(s.drop_last()[i])
            }) by {
                assert(s.drop_last()[i] == s[i]);
            }
        }
        lemma_digits_value_nonneg(s.drop_last(), hex);
        let _ = s[s.len() - 1];
    }
}

proof fn lemma_digits_value_mono(s: Seq<char>, hex: bool, i: int)
    requires
        all_digits(s, hex),
        0 <= i <= s.len(),
    ensures
        digits_value(s.subrange(0, i), hex) <= digits_value(s, hex),
    decreases s.len(),
{
    if i < s.len() {
        let t = s.drop_last();
        assert(all_digits(t, hex)) by {
            assert forall|k: int| 0 <= k < t.len() implies (if hex {
                is_hex_digit(#[trigger] t[k])
            } else {
                is_digit(t[k])
            }) by {
                assert(t[k] == s[k]);
            }
        }
        lemma_digits_value_mono(t, hex, i);
        assert(t.subrange(0, i) =~= s.subrange(0, i));
        lemma_digits_value_nonneg(t, hex);
        let _ = s[s.len() - 1];
    } else {
        assert(s.subrange(0, i) =~= s);
    }
}

fn char_digit_value(c: char, hex: bool) -> (r: Option<u64>)
    ensures
        match r {
            Some(v) => (if hex {
                is_hex_digit(c) && v == hex_value(c)
            } else {
                is_digit(c) && v == digit_value(c)
            }),
            None => !(if hex {
                is_hex_digit(c)
            } else {
                is_digit(c)
            }),
        },
{
    if '0' <= c && c <= '9' {
        Some((c as u32 - '0' as u32) as u64)
    } else if hex && 'a' <= c && c <= 'f' {
        Some((c as u32 - 'a' as u32 + 10) as u64)
    } else if hex && 'A' <= c && c <= 'F' {
        Some((c as u32 - 'A' as u32 + 10) as u64)
    } else {
        None
    }
}

/// `from_str_radix(s, 10 or 16)` for an unsigned type whose maximum is `max`.
pub fn parse_unsigned_exec(s: &Vec<char>, hex: bool, max: u64) -> (r: Option<u64>)
    ensures
        match r {
            Some(v) => parse_unsigned(s@, hex, max as int) == Some(v as int),
            None => parse_unsigned(s@, hex, max as int) is None,
        },
{
    let start: usize = if s.len() > 1 && s[0] == '+' {
        1
    } else {
        0
    };
    let ghost d = unsigned_digits(s@);
    proof {
        assert(d =~= s@.subrange(start as int, s@.len() as int));
    }
    if start == s.len() {
        return None;
    }
    let mut acc: u64 = 0;
    let mut i = start;
    let base: u64 = if hex {
        16
    } else {
        10
    };
    while i < s.len()
        invariant
            start <= i <= s@.len(),
            d == s@.subrange(start as int, s@.len() as int),
            d == unsigned_digits(s@),
            base == (if hex {
                16u64
            } else {
                10u64
            }),
            all_digits(d.subrange(0, i - start), hex),
            acc as int == digits_value(d.subrange(0, i - start), hex),
            acc <= max,
        decreases s@.len() - i,
    {
        let ghost pre = d.subrange(0, i - start);
        let ghost next = d.subrange(0, i - start + 1);
        proof {
            assert(next.drop_last() =~= pre);
            assert(next.last() == s@[i as int]);
        }
        match char_digit_value(s[i], hex) {
            None => {
                proof {
                    assert(!all_digits(d, hex)) by {
                        assert(d[i - start] == s@[i as int]);
                    }
                }
                return None;
            },
            Some(v) => {
                proof {
                    assert(all_digits(next, hex)) by {
                        assert forall|k: int| 0 <= k < next.len() implies (if hex {
                            is_hex_digit(#[trigger] next[k])
                        } else {
                            is_digit(next[k])
                        }) by {
                            if k < next.len() - 1 {
                                assert(next[k] == pre[k]);
                            }
                        }
                    }
                }
                if v > max || acc > (max - v) / base {
                    proof {
                        assert(digits_value(next, hex) == acc * base + v);
                        if v <= max {
                            let q = (max - v) as int / (base as int);
                            assert(acc * base + v > max) by (nonlinear_arith)
                                requires
                                    acc > q,
                                    q == (max - v) as int / base as int,
                                    base > 0,
                                    v <= max,
                            ;
                        }
                        lemma_digits_value_nonneg(pre, hex);
                        assert(acc * base + v > max) by (nonlinear_arith)
                            requires acc >= 0, base > 0, (v > max || acc * base + v > max);
                        if all_digits(d, hex) {
                            lemma_digits_value_mono(d, hex, i - start + 1);
                        }
                    }
                    return None;
                }
                proof {
                    let q = (max - v) as int / (base as int);
                    assert(acc * base + v <= max) by (nonlinear_arith)
                        requires
                            acc <= q,
                            q == (max - v) as int / base as int,
                            base > 0,
                            v <= max,
                    ;
                }
                acc = acc * base + v;
                i = i + 1;
            },
        }
    }
    proof {
        assert(d.subrange(0, i - start) =~= d);
    }
    Some(acc)
}

/// [`parse_unsigned_exec`] for 128-bit integer types.
pub fn parse_unsigned_wide(s: &Vec<char>, hex: bool, max: u128) -> (r: Option<u128>)
    ensures
        match r {
            Some(v) => parse_unsigned(s@, hex, max as int) == Some(v as int),
            None => parse_unsigned(s@, hex, max as int) is None,
        },
{
    let start: usize = if s.len() > 1 && s[0] == '+' {
        1
    } else {
        0
    };
    let ghost d = unsigned_digits(s@);
    proof {
        assert(d =~= s@.subrange(start as int, s@.len() as int));
    }
    if start == s.len() {
        return None;
    }
    let mut acc: u128 = 0;
    let mut i = start;
    let base: u128 = if hex {
        16
    } else {
        10
    };
    while i < s.len()
        invariant
            start <= i <= s@.len(),
            d == s@.subrange(start as int, s@.len() as int),
            d == unsigned_digits(s@),
            base == (if hex {
                16u128
            } else {
                10u128
            }),
            all_digits(d.subrange(0, i - start), hex),
            acc as int == digits_value(d.subrange(0, i - start), hex),
            acc <= max,
        decreases s@.len() - i,
    {
        let ghost pre = d.subrange(0, i - start);
        let ghost next = d.subrange(0, i - start + 1);
        proof {
            assert(next.drop_last() =~= pre);
            assert(next.last() == s@[i as int]);
        }
        match char_digit_value(s[i], hex) {
            None => {
                proof {
                    assert(!all_digits(d, hex)) by {
                        assert(d[i - start] == s@[i as int]);
                    }
                }
                return None;
            },
            Some(v64) => {
                let v = v64 as u128;
                proof {
                    assert(all_digits(next, hex)) by {
                        assert forall|k: int| 0 <= k < next.len() implies (if hex {
                            is_hex_digit(#[trigger] next[k])
                        } else {
                            is_digit(next[k])
                        }) by {
                            if k < next.len() - 1 {
                                assert(next[k] == pre[k]);
                            }
                        }
                    }
                }
                if v > max || acc > (max - v) / base {
                    proof {
                        assert(digits_value(next, hex) == acc * base + v);
                        if v <= max {
                            let q = (max - v) as int / (base as int);
                            assert(acc * base + v > max) by (nonlinear_arith)
                                requires
                                    acc > q,
                                    q == (max - v) as int / base as int,
                                    base > 0,
                                    v <= max,
                            ;
                        }
                        lemma_digits_value_nonneg(pre, hex);
                        assert(acc * base + v > max) by (nonlinear_arith)
                            requires acc >= 0, base > 0, (v > max || acc * base + v > max);
                        if all_digits(d, hex) {
                            lemma_digits_value_mono(d, hex, i - start + 1);
                        }
                    }
                    return None;
                }
                proof {
                    let q = (max - v) as int / (base as int);
                    assert(acc * base + v <= max) by (nonlinear_arith)
                        requires
                            acc <= q,
                            q == (max - v) as int / base as int,
                            base > 0,
                            v <= max,
                    ;
                }
                acc = acc * base + v;
                i = i + 1;
            },
        }
    }
    proof {
        assert(d.subrange(0, i - start) =~= d);
    }
    Some(acc)
}

/// Lowercase hexadecimal notation of `n`, zero-padded to `width` digits
/// (`{:0width$x}`).
pub open spec fn hex_lower_digit(d: int) -> char {
    if d < 10 {
        digit_char(d)
    } else if d == 10 {
        'a'
    } else if d == 11 {
        'b'
    } else if d == 12 {
        'c'
    } else if d == 13 {
        'd'
    } else if d == 14 {
        'e'
    } else {
        'f'
    }
}

pub open spec fn hex_fixed(n: nat, width: nat) -> Seq<char>
    decreases width,
{
    if width == 0 {
        seq![]
    } else {
        hex_fixed(n / 16, (width - 1) as nat).push(hex_lower_digit((n % 16) as int))
    }
}

fn hex_digit_lower(d: u64) -> (c: char)
    requires
        d < 16,
    ensures
        c == hex_lower_digit(d as int),
{
    if d < 10 {
        digit(d)
    } else if d == 10 {
        'a'
    } else if d == 11 {
        'b'
    } else if d == 12 {
        'c'
    } else if d == 13 {
        'd'
    } else if d == 14 {
        'e'
    } else {
        'f'
    }
}

/// Appends `n` as `width` lowercase hex digits.
pub fn push_hex_fixed(out: &mut String, n: u64, width: u64)
    ensures
        final(out)@ == old(out)@ + hex_fixed(n as nat, width as nat),
    decreases width,
{
    if width > 0 {
        push_hex_fixed(out, n / 16, width - 1);
        push_char(out, hex_digit_lower(n % 16));
        proof {
            assert(hex_fixed(n as nat, width as nat) == hex_fixed(
                (n / 16) as nat,
                (width - 1) as nat,
            ).push(hex_lower_digit((n % 16) as int)));
        }
    } else {
        proof {
            assert(old(out)@ + hex_fixed(n as nat, width as nat) =~= old(out)@);
        }
    }
}

pub open spec fn ascii_lower(c: char) -> char {
    if 'A' <= c && c <= 'Z' {
        ((c as u32) + 32) as char
    } else {
        c
    }
}

pub fn to_ascii_lower(c: char) -> (r: char)
    ensures
        r == ascii_lower(c),
{
    if 'A' <= c && c <= 'Z' {
        ((c as u8) + 32) as char
    } else {
        c
    }
}

pub open spec fn is_ascii_alnum(c: char) -> bool {
    ('0' <= c && c <= '9') || ('a' <= c && c <= 'z') || ('A' <= c && c <= 'Z')
}

} // verus!
