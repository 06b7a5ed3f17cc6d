//! XML character entities: the escaping Loxone Config applies to attribute
//! values and text, and its inverse.
use crate::text::{
    chars_of, chars_range, find_char_from, push_range, find_from, lemma_find_first, lemma_find_from,
    lemma_find_none, lemma_find_suffix, parse_unsigned, parse_unsigned_exec, push_char, push_str,
};
use vstd::prelude::*;

verus! {

/// The escape of one character: `&`, `<`, `>`, `"` and `'` become entities.
pub open spec fn escape_char(c: char) -> Seq<char> {
    if c == '&' {
        seq!['&', 'a', 'm', 'p', ';']
    } else if c == '<' {
        seq!['&', 'l', 't', ';']
    } else if c == '>' {
        seq!['&', 'g', 't', ';']
    } else if c == '"' {
        seq!['&', 'q', 'u', 'o', 't', ';']
    } else if c == '\'' {
        seq!['&', 'a', 'p', 'o', 's', ';']
    } else {
        seq![c]
    }
}

/// The escape of a whole string, character by character.
pub open spec fn escape_text(s: Seq<char>) -> Seq<char>
    decreases s.len(),
{
    if s.len() == 0 {
        seq![]
    } else {
        escape_text(s.drop_last()) + escape_char(s.last())
    }
}

/// Whether `v` is a Unicode scalar value (what `char::from_u32` accepts).
pub open spec fn is_scalar_value(v: int) -> bool {
    (0 <= v < 0xD800) || (0xE000 <= v <= 0x10FFFF)
}

/// The five named entities, by the text between `&` and `;`.
pub open spec fn named_entity(e: Seq<char>) -> Option<char> {
    if e == seq!['a', 'm', 'p'] {
        Some('&')
    } else if e == seq!['l', 't'] {
        Some('<')
    } else if e == seq!['g', 't'] {
        Some('>')
    } else if e == seq!['q', 'u', 'o', 't'] {
        Some('"')
    } else if e == seq!['a', 'p', 'o', 's'] {
        Some('\'')
    } else {
        None
    }
}

/// Numeric character references: `#x`/`#X` then hexadecimal digits, or
/// (when that reads nothing) `#` then decimal digits; the value must be a
/// scalar value.
pub open spec fn numeric_entity(e: Seq<char>) -> Option<char> {
    let hex = if e.len() >= 2 && e[0] == '#' && (e[1] == 'x' || e[1] == 'X') {
        parse_unsigned(e.subrange(2, e.len() as int), true, 0xFFFF_FFFF)
    } else {
        None
    };
    let v = match hex {
        Some(v) => Some(v),
        None => if e.len() >= 1 && e[0] == '#' {
            parse_unsigned(e.drop_first(), false, 0xFFFF_FFFF)
        } else {
            None
        },
    };
    match v {
        Some(v) => if is_scalar_value(v) {
            Some(v as char)
        } else {
            None
        },
        None => None,
    }
}

pub open spec fn decode_entity(e: Seq<char>) -> Option<char> {
    match named_entity(e) {
        Some(c) => Some(c),
        None => numeric_entity(e),
    }
}

/// Decoding: each `&name;` whose name is a known entity becomes its
/// character; unknown entities and a `&` without a following `;` stay as
/// they are.
pub open spec fn unescape_text(s: Seq<char>) -> Seq<char>
    decreases s.len(),
{
    let i = find_from(s, 0, '&');
    if i >= s.len() {
        s
    } else {
        let e = find_from(s, i, ';');
        if e >= s.len() {
            s
        } else {
            proof {
                lemma_find_from(s, 0, '&');
                lemma_find_from(s, i, ';');
            }
            s.subrange(0, i) + (match decode_entity(s.subrange(i + 1, e)) {
                Some(c) => seq![c],
                None => s.subrange(i, e + 1),
            }) + unescape_text(s.subrange(e + 1, s.len() as int))
        }
    }
}

/// `char::from_u32`: the character with that scalar value, if there is one.
#[verifier::external_body]
fn char_from_u32(v: u32) -> (r: Option<char>)
    ensures
        r == (if is_scalar_value(v as int) {
            Some(v as char)
        } else {
            None::<char>
        }),
{
    char::from_u32(v)
}

/// Escape a value for use in an attribute or text node, matching Loxone's
/// own convention (it escapes `>` and `'` too).
pub fn escape(s: &str) -> (r: String)
    ensures
        r@ == escape_text(s@),
{
    let v = chars_of(s);
    let mut out = String::new();
    let mut i: usize = 0;
    while i < v.len()
        invariant
            0 <= i <= v@.len(),
            v@ == s@,
            out@ == escape_text(v@.take(i as int)),
        decreases v@.len() - i,
    {
        let c = v[i];
        if c == '&' {
            push_str(&mut out, "&amp;");
        } else if c == '<' {
            push_str(&mut out, "&lt;");
        } else if c == '>' {
            push_str(&mut out, "&gt;");
        } else if c == '"' {
            push_str(&mut out, "&quot;");
        } else if c == '\'' {
            push_str(&mut out, "&apos;");
        } else {
            push_char(&mut out, c);
        }
        proof {
            reveal_strlit("&amp;");
            reveal_strlit("&lt;");
            reveal_strlit("&gt;");
            reveal_strlit("&quot;");
            reveal_strlit("&apos;");
            assert(v@.take(i + 1).drop_last() =~= v@.take(i as int));
            assert(out@ =~= escape_text(v@.take(i + 1)));
        }
        i = i + 1;
    }
    proof {
        assert(v@.take(v@.len() as int) =~= v@);
    }
    out
}

fn named_entity_exec(e: &Vec<char>) -> (r: Option<char>)
    ensures
        r == named_entity(e@),
{
    let n = e.len();
    if n == 3 && e[0] == 'a' && e[1] == 'm' && e[2] == 'p' {
        assert(e@ =~= seq!['a', 'm', 'p']);
        Some('&')
    } else if n == 2 && e[0] == 'l' && e[1] == 't' {
        assert(e@ =~= seq!['l', 't']);
        Some('<')
    } else if n == 2 && e[0] == 'g' && e[1] == 't' {
        assert(e@ =~= seq!['g', 't']);
        Some('>')
    } else if n == 4 && e[0] == 'q' && e[1] == 'u' && e[2] == 'o' && e[3] == 't' {
        assert(e@ =~= seq!['q', 'u', 'o', 't']);
        Some('"')
    } else if n == 4 && e[0] == 'a' && e[1] == 'p' && e[2] == 'o' && e[3] == 's' {
        assert(e@ =~= seq!['a', 'p', 'o', 's']);
        Some('\'')
    } else {
        proof {
            assert(e@ != seq!['a', 'm', 'p'] ==> true);
            if e@ == seq!['a', 'm', 'p'] {
                assert(e@[0] == 'a' && e@[1] == 'm' && e@[2] == 'p');
            }
            if e@ == seq!['l', 't'] {
                assert(e@[0] == 'l' && e@[1] == 't');
            }
            if e@ == seq!['g', 't'] {
                assert(e@[0] == 'g' && e@[1] == 't');
            }
            if e@ == seq!['q', 'u', 'o', 't'] {
                assert(e@[0] == 'q' && e@[1] == 'u' && e@[2] == 'o' && e@[3] == 't');
            }
            if e@ == seq!['a', 'p', 'o', 's'] {
                assert(e@[0] == 'a' && e@[1] == 'p' && e@[2] == 'o' && e@[3] == 's');
            }
        }
        None
    }
}

fn numeric_entity_exec(e: &Vec<char>) -> (r: Option<char>)
    ensures
        r == numeric_entity(e@),
{
    let n = e.len();
    let mut hex: Option<u64> = None;
    if n >= 2 && e[0] == '#' && (e[1] == 'x' || e[1] == 'X') {
        let digits = chars_range(e, 2, n);
        hex = parse_unsigned_exec(&digits, true, 0xFFFF_FFFF);
    }
    let v = match hex {
        Some(v) => Some(v),
        None => if n >= 1 && e[0] == '#' {
            let digits = chars_range(e, 1, n);
            proof {
                assert(digits@ =~= e@.drop_first());
            }
            parse_unsigned_exec(&digits, false, 0xFFFF_FFFF)
        } else {
            None
        },
    };
    match v {
        Some(v) => char_from_u32(v as u32),
        None => None,
    }
}

fn decode_entity_exec(e: &Vec<char>) -> (r: Option<char>)
    ensures
        r == decode_entity(e@),
{
    match named_entity_exec(e) {
        Some(c) => Some(c),
        None => numeric_entity_exec(e),
    }
}

/// Decode the five XML entities plus numeric character references.
pub fn unescape(raw: &str) -> (r: String)
    ensures
        r@ == unescape_text(raw@),
{
    let s = chars_of(raw);
    let n = s.len();
    let ghost sv = s@;
    let mut out = String::new();
    let mut p: usize = 0;
    assert(sv.subrange(0, sv.len() as int) =~= sv);
    while p < n
        invariant
            0 <= p <= sv.len(),
            n == sv.len(),
            s@ == sv,
            sv == raw@,
            out@ + unescape_text(sv.subrange(p as int, sv.len() as int)) == unescape_text(sv),
        decreases sv.len() - p,
    {
        let ghost t = sv.subrange(p as int, sv.len() as int);
        let i = find_char_from(&s, p, '&');
        proof {
            lemma_find_from(sv, p as int, '&');
            lemma_find_suffix(sv, p as int, 0, '&');
        }
        if i >= n {
            push_range(&mut out, &s, p, n);
            return out;
        }
        let e = find_char_from(&s, i, ';');
        proof {
            lemma_find_from(sv, i as int, ';');
            lemma_find_suffix(sv, p as int, i - p, ';');
        }
        if e >= n {
            push_range(&mut out, &s, p, n);
            return out;
        }
        push_range(&mut out, &s, p, i);
        let ent = chars_range(&s, i + 1, e);
        match decode_entity_exec(&ent) {
            Some(c) => push_char(&mut out, c),
            None => push_range(&mut out, &s, i, e + 1),
        }
        proof {
            let ti = i - p;
            let te = e - p;
            assert(t.subrange(0, ti) =~= sv.subrange(p as int, i as int));
            assert(t.subrange(ti + 1, te) =~= sv.subrange(i + 1, e as int));
            assert(t.subrange(ti, te + 1) =~= sv.subrange(i as int, e + 1));
            assert(t.subrange(te + 1, t.len() as int) =~= sv.subrange(e + 1, sv.len() as int));
        }
        p = e + 1;
    }
    proof {
        let t = sv.subrange(p as int, sv.len() as int);
        assert(t =~= Seq::<char>::empty());
        assert(out@ + t =~= out@);
    }
    out
}

// ---------------------------------------------------------------------------
// Escaping is undone by unescaping
// ---------------------------------------------------------------------------

proof fn lemma_escape_concat(a: Seq<char>, b: Seq<char>)
    ensures
        escape_text(a + b) == escape_text(a) + escape_text(b),
    decreases b.len(),
{
    if b.len() == 0 {
        assert(a + b =~= a);
        assert(escape_text(b) =~= Seq::<char>::empty());
        assert(escape_text(a) + escape_text(b) =~= escape_text(a));
    } else {
        lemma_escape_concat(a, b.drop_last());
        assert((a + b).drop_last() =~= a + b.drop_last());
        assert(escape_text(a + b) =~= escape_text(a) + escape_text(b));
    }
}

/// Text without `&` passes through unescaping unchanged in front of the rest.
proof fn lemma_unescape_plain_prefix(x: Seq<char>, y: Seq<char>)
    requires
        forall|k: int| 0 <= k < x.len() ==> x[k] != '&',
    ensures
        unescape_text(x + y) == x + unescape_text(y),
{
    let s = x + y;
    let n = x.len() as int;
    let iy = find_from(y, 0, '&');
    lemma_find_from(y, 0, '&');
    assert forall|k: int| 0 <= k < n + iy && k < s.len() implies s[k] != '&' by {
        if k < n {
            assert(s[k] == x[k]);
        } else {
            assert(s[k] == y[k - n]);
        }
    }
    if iy < y.len() {
        assert(s[n + iy] == y[iy]);
        lemma_find_first(s, 0, n + iy, '&');
        lemma_plain_prefix_entity(x, y);
    } else {
        lemma_find_none(s, 0, '&');
        assert(find_from(y, 0, '&') >= y.len());
    }
}

proof fn lemma_plain_prefix_entity(x: Seq<char>, y: Seq<char>)
    requires
        find_from(y, 0, '&') < y.len(),
        find_from(x + y, 0, '&') == x.len() + find_from(y, 0, '&'),
    ensures
        unescape_text(x + y) == x + unescape_text(y),
{
    let s = x + y;
    let n = x.len() as int;
    let iy = find_from(y, 0, '&');
    let i = n + iy;
    lemma_find_from(y, 0, '&');
    assert(s.subrange(n, s.len() as int) =~= y);
    lemma_find_suffix(s, n, iy, ';');
    let ey = find_from(y, iy, ';');
    let e = find_from(s, i, ';');
    assert(e == n + ey);
    if ey < y.len() {
        lemma_find_from(y, iy, ';');
        assert(s.subrange(0, i) =~= x + y.subrange(0, iy));
        assert(s.subrange(i + 1, e) =~= y.subrange(iy + 1, ey));
        assert(s.subrange(i, e + 1) =~= y.subrange(iy, ey + 1));
        assert(s.subrange(e + 1, s.len() as int) =~= y.subrange(ey + 1, y.len() as int));
        let d = match decode_entity(y.subrange(iy + 1, ey)) {
            Some(c) => seq![c],
            None => y.subrange(iy, ey + 1),
        };
        let r = unescape_text(y.subrange(ey + 1, y.len() as int));
        assert(unescape_text(y) == y.subrange(0, iy) + d + r);
        assert(unescape_text(s) == x + y.subrange(0, iy) + d + r);
        assert(x + y.subrange(0, iy) + d + r =~= x + (y.subrange(0, iy) + d + r));
    }
}

/// An entity written by `escape` decodes back to its character.
proof fn lemma_unescape_entity(c: char, y: Seq<char>)
    requires
        escape_char(c).len() > 1,
    ensures
        unescape_text(escape_char(c) + y) == seq![c] + unescape_text(y),
{
    let x = escape_char(c);
    let s = x + y;
    let n = x.len() as int;
    assert(x[0] == '&');
    assert(s[0] == '&');
    lemma_find_first(s, 0, 0, '&');
    assert(x[n - 1] == ';');
    assert(s[n - 1] == ';');
    assert forall|k: int| 0 <= k < n - 1 implies s[k] != ';' by {
        assert(s[k] == x[k]);
    }
    lemma_find_first(s, 0, n - 1, ';');
    assert(s.subrange(1, n - 1) =~= x.subrange(1, n - 1));
    assert(s.subrange(n, s.len() as int) =~= y);
    if c == '&' {
        assert(x.subrange(1, n - 1) =~= seq!['a', 'm', 'p']);
    } else if c == '<' {
        assert(x.subrange(1, n - 1) =~= seq!['l', 't']);
    } else if c == '>' {
        assert(x.subrange(1, n - 1) =~= seq!['g', 't']);
    } else if c == '"' {
        assert(x.subrange(1, n - 1) =~= seq!['q', 'u', 'o', 't']);
    } else {
        assert(x.subrange(1, n - 1) =~= seq!['a', 'p', 'o', 's']);
    }
    assert(s.subrange(0, 0) =~= Seq::<char>::empty());
    assert(unescape_text(s) =~= seq![c] + unescape_text(y));
}

/// Unescaping what `escape` wrote gives the original text back.
pub proof fn unescape_inverts_escape(s: Seq<char>)
    ensures
        unescape_text(escape_text(s)) == s,
    decreases s.len(),
{
    if s.len() == 0 {
        assert(escape_text(s) =~= Seq::<char>::empty());
        lemma_find_none(escape_text(s), 0, '&');
    } else {
        let c = s[0];
        let t = s.drop_first();
        assert(s =~= seq![c] + t);
        lemma_escape_concat(seq![c], t);
        assert(seq![c].drop_last() =~= Seq::<char>::empty());
        assert(escape_text(Seq::<char>::empty()) =~= Seq::<char>::empty());
        assert(escape_text(seq![c]) == escape_text(seq![c].drop_last()) + escape_char(c));
        assert(escape_text(seq![c]) =~= escape_char(c));
        unescape_inverts_escape(t);
        if escape_char(c).len() > 1 {
            lemma_unescape_entity(c, escape_text(t));
        } else {
            assert(escape_char(c) == seq![c]);
            lemma_unescape_plain_prefix(seq![c], escape_text(t));
        }
    }
}

} // verus!
