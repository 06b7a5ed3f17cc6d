//! Slugs for objects lifted out of an existing config: a display title
//! becomes a valid IR name, and names are deduplicated with `_2`-style
//! suffixes.
use crate::doc::{
    last_assigned, objects_view, objects_wires, owner_assignments, ports_spec, ObjectSummary, SObject, SPort,
};
use crate::ir::ast::{ArgItem, Binding, BindingKind, Item, MatchSpec, PortRef, Value};
use crate::ir::model::{arg_v, args_v, items_v};
use crate::xml::Element;
use crate::ir::ast::number_literal;
use crate::ir::model::{SArg, SBinding, SBlock, SExtern, SItem, SKind, SMatch, SValue};
use crate::ir::template::lookup;
use crate::strmap::{map_get, sorted_keys, StrMap};
use crate::xml::SElement;
use crate::text::{
    ascii_lower, dec, digit_char, is_ascii_alnum, push_char, push_dec_wide, push_str, string_of,
    to_ascii_lower,
};
use vstd::prelude::*;
use vstd::set_lib::{lemma_int_range, lemma_map_size, set_int_range};

verus! {

/// Words of the IR that cannot name anything.
pub open spec fn is_reserved(s: Seq<char>) -> bool {
    ||| s == "let"@
    ||| s == "extern"@
    ||| s == "template"@
    ||| s == "end"@
    ||| s == "removed"@
    ||| s == "moved"@
    ||| s == "page"@
    ||| s == "block"@
    ||| s == "wire"@
    ||| s == "set"@
    ||| s == "use"@
    ||| s == "and"@
    ||| s == "or"@
    ||| s == "not"@
}

pub fn is_reserved_word(s: &str) -> (r: bool)
    ensures
        r == is_reserved(s@),
{
    let w = ["let", "extern", "template", "end", "removed", "moved", "page", "block", "wire", "set",
        "use", "and", "or", "not"];
    let mut i: usize = 0;
    while i < 14
        invariant
            0 <= i <= 14,
            w@ == seq!["let", "extern", "template", "end", "removed", "moved", "page", "block", "wire",
                "set", "use", "and", "or", "not"],
            forall|j: int| 0 <= j < i ==> w@[j]@ != s@,
        decreases 14 - i,
    {
        if crate::text::str_eq(w[i], s) {
            return true;
        }
        i = i + 1;
    }
    proof {
        assert(w@[0]@ != s@ && w@[1]@ != s@ && w@[2]@ != s@ && w@[3]@ != s@);
        assert(w@[4]@ != s@ && w@[5]@ != s@ && w@[6]@ != s@ && w@[7]@ != s@);
        assert(w@[8]@ != s@ && w@[9]@ != s@ && w@[10]@ != s@ && w@[11]@ != s@);
        assert(w@[12]@ != s@ && w@[13]@ != s@);
    }
    false
}

/// One character's contribution to a slug, given the slug so far.
pub open spec fn slug_step(out: Seq<char>, c: char) -> Seq<char> {
    if c == 'ä' || c == 'Ä' {
        out + seq!['a', 'e']
    } else if c == 'ö' || c == 'Ö' {
        out + seq!['o', 'e']
    } else if c == 'ü' || c == 'Ü' {
        out + seq!['u', 'e']
    } else if c == 'ß' {
        out + seq!['s', 's']
    } else if is_ascii_alnum(c) {
        out.push(ascii_lower(c))
    } else if out.len() > 0 && out.last() != '_' {
        out.push('_')
    } else {
        out
    }
}

/// The slug text before trimming: umlauts transliterated, ASCII letters
/// and digits lowercased, every other run collapsed to one `_`.
pub open spec fn slug_raw(s: Seq<char>) -> Seq<char>
    decreases s.len(),
{
    if s.len() == 0 {
        seq![]
    } else {
        slug_step(slug_raw(s.drop_last()), s.last())
    }
}

pub open spec fn first_not_underscore(s: Seq<char>, i: int) -> int
    decreases s.len() - i,
{
    if i < 0 || i >= s.len() || s[i] != '_' {
        i
    } else {
        first_not_underscore(s, i + 1)
    }
}

pub open spec fn end_not_underscore(s: Seq<char>, n: int) -> int
    decreases n,
{
    if n <= 0 || n > s.len() || s[n - 1] != '_' {
        n
    } else {
        end_not_underscore(s, n - 1)
    }
}

/// `trim_matches('_')`.
pub open spec fn trim_underscores(s: Seq<char>) -> Seq<char> {
    let a = first_not_underscore(s, 0);
    let b = end_not_underscore(s, s.len() as int);
    if a >= b {
        seq![]
    } else {
        s.subrange(a, b)
    }
}

/// A display title as a valid IR slug (`[a-z][a-z0-9_]*`).
pub open spec fn slugify_spec(s: Seq<char>) -> Seq<char> {
    let t = trim_underscores(slug_raw(s));
    if t.len() == 0 {
        seq!['x']
    } else if 'a' <= t[0] && t[0] <= 'z' {
        t
    } else {
        seq!['x'] + t
    }
}

/// Turn a display title into a valid IR slug (`[a-z][a-z0-9_]*`).
/// German umlauts transliterate (`ü`→`ue`); everything else non-alphanumeric
/// collapses to `_`.
pub fn slugify(name: &str) -> (r: String)
    ensures
        r@ == slugify_spec(name@),
{
    let cs = crate::text::chars_of(name);
    let mut out: Vec<char> = Vec::new();
    let mut i: usize = 0;
    while i < cs.len()
        invariant
            0 <= i <= cs@.len(),
            cs@ == name@,
            out@ == slug_raw(cs@.take(i as int)),
        decreases cs@.len() - i,
    {
        let c = cs[i];
        proof {
            assert(cs@.take(i + 1).drop_last() =~= cs@.take(i as int));
            assert(cs@.take(i + 1).last() == c);
        }
        let ghost before = out@;
        if c == 'ä' || c == 'Ä' {
            out.push('a');
            out.push('e');
        } else if c == 'ö' || c == 'Ö' {
            out.push('o');
            out.push('e');
        } else if c == 'ü' || c == 'Ü' {
            out.push('u');
            out.push('e');
        } else if c == 'ß' {
            out.push('s');
            out.push('s');
        } else if ('0' <= c && c <= '9') || ('a' <= c && c <= 'z') || ('A' <= c && c <= 'Z') {
            out.push(to_ascii_lower(c));
        } else if out.len() > 0 && out[out.len() - 1] != '_' {
            out.push('_');
        }
        proof {
            assert(out@ =~= slug_step(before, c));
        }
        i = i + 1;
    }
    proof {
        assert(cs@.take(cs@.len() as int) =~= cs@);
    }
    let raw = out;
    let mut a: usize = 0;
    while a < raw.len() && raw[a] == '_'
        invariant
            0 <= a <= raw@.len(),
            first_not_underscore(raw@, 0) == first_not_underscore(raw@, a as int),
        decreases raw@.len() - a,
    {
        a = a + 1;
    }
    let mut b: usize = raw.len();
    while b > 0 && raw[b - 1] == '_'
        invariant
            0 <= b <= raw@.len(),
            end_not_underscore(raw@, raw@.len() as int) == end_not_underscore(raw@, b as int),
        decreases b,
    {
        b = b - 1;
    }
    let mut r = String::new();
    if a >= b {
        push_char(&mut r, 'x');
        proof {
            assert(r@ =~= seq!['x']);
        }
        return r;
    }
    let c0 = raw[a];
    if !('a' <= c0 && c0 <= 'z') {
        push_char(&mut r, 'x');
    }
    let ghost head = r@;
    let mut k = a;
    while k < b
        invariant
            a <= k <= b <= raw@.len(),
            r@ == head + raw@.subrange(a as int, k as int),
        decreases b - k,
    {
        push_char(&mut r, raw[k]);
        proof {
            assert(raw@.subrange(a as int, k + 1) =~= raw@.subrange(a as int, k as int).push(
                raw@[k as int],
            ));
        }
        k = k + 1;
    }
    proof {
        let t = raw@.subrange(a as int, b as int);
        assert(t[0] == c0);
        if 'a' <= c0 && c0 <= 'z' {
            assert(r@ =~= t);
        } else {
            assert(r@ =~= seq!['x'] + t);
        }
    }
    r
}

// ---------------------------------------------------------------------------
// Deduplication
// ---------------------------------------------------------------------------

/// `base_n`.
pub open spec fn numbered(base: Seq<char>, n: nat) -> Seq<char> {
    base + seq!['_'] + dec(n)
}

/// The name `base` gets among `used`: `base` itself when free, else the
/// first free `base_n` for `n` from 2 on (`n` below `bound`).
pub open spec fn first_free_from(base: Seq<char>, used: Seq<(Seq<char>, bool)>, n: nat, bound: nat) -> Seq<char>
    decreases bound - n,
{
    if n >= bound || map_get(used, numbered(base, n)) is None {
        numbered(base, n)
    } else {
        first_free_from(base, used, n + 1, bound)
    }
}

/// The deduplicated name: `base` when free, else the first free `base_n`
/// (`n = 2, 3, …`; one is always free among the first `len + 1`).
pub open spec fn dedupe_spec(base: Seq<char>, used: Seq<(Seq<char>, bool)>) -> Seq<char> {
    if map_get(used, base) is None {
        base
    } else {
        first_free_from(base, used, 2, used.len() + 3)
    }
}

proof fn lemma_dec_nonempty(n: nat)
    ensures
        dec(n).len() >= 1,
    decreases n,
{
    if n >= 10 {
        lemma_dec_nonempty(n / 10);
    }
}

proof fn lemma_digit_char_injective(a: int, b: int)
    requires
        0 <= a < 10,
        0 <= b < 10,
        digit_char(a) == digit_char(b),
    ensures
        a == b,
{
}

proof fn lemma_dec_injective(a: nat, b: nat)
    requires
        dec(a) == dec(b),
    ensures
        a == b,
    decreases a,
{
    lemma_dec_nonempty(a / 10);
    lemma_dec_nonempty(b / 10);
    if a < 10 && b < 10 {
        assert(dec(a)[0] == digit_char(a as int));
        assert(dec(b)[0] == digit_char(b as int));
        lemma_digit_char_injective(a as int, b as int);
    } else if a < 10 {
        assert(dec(b).len() >= 2);
    } else if b < 10 {
        assert(dec(a).len() >= 2);
    } else {
        assert(dec(a).last() == digit_char((a % 10) as int));
        assert(dec(b).last() == digit_char((b % 10) as int));
        lemma_digit_char_injective((a % 10) as int, (b % 10) as int);
        assert(dec(a).drop_last() =~= dec(a / 10));
        assert(dec(b).drop_last() =~= dec(b / 10));
        lemma_dec_injective(a / 10, b / 10);
    }
}

proof fn lemma_numbered_injective(base: Seq<char>, a: nat, b: nat)
    requires
        numbered(base, a) == numbered(base, b),
    ensures
        a == b,
{
    let k = base.len() + 1;
    assert(numbered(base, a).subrange(k as int, numbered(base, a).len() as int) =~= dec(a));
    assert(numbered(base, b).subrange(k as int, numbered(base, b).len() as int) =~= dec(b));
    lemma_dec_injective(a, b);
}

/// Among `used.len() + 1` distinct names, one is not used.
proof fn lemma_some_free(base: Seq<char>, used: Seq<(Seq<char>, bool)>)
    requires
        sorted_keys(used),
    ensures
        exists|n: nat| 2 <= n < used.len() + 3 && map_get(used, #[trigger] numbered(base, n)) is None,
{
    if forall|n: nat| 2 <= n < used.len() + 3 ==> map_get(used, #[trigger] numbered(base, n)) is Some {
        let len = used.len() as int;
        let x = set_int_range(2, len + 3);
        let f = |k: int| crate::strmap::key_index(used, numbered(base, k as nat));
        lemma_int_range(2, len + 3);
        assert forall|p: int, q: int| x.contains(p) && x.contains(q) && #[trigger] f(p) == #[trigger] f(q)
            implies p == q by {
            crate::strmap::lemma_key_index(used, numbered(base, p as nat));
            crate::strmap::lemma_key_index(used, numbered(base, q as nat));
            assert(map_get(used, numbered(base, p as nat)) is Some);
            assert(map_get(used, numbered(base, q as nat)) is Some);
            lemma_numbered_injective(base, p as nat, q as nat);
        }
        let y = x.map(f);
        lemma_map_size(x, y, f);
        lemma_int_range(0, len);
        assert forall|v: int| y.contains(v) implies set_int_range(0, len).contains(v) by {
            let p = choose|p: int| x.contains(p) && f(p) == v;
            crate::strmap::lemma_key_index(used, numbered(base, p as nat));
            assert(map_get(used, numbered(base, p as nat)) is Some);
        }
        vstd::set_lib::lemma_len_subset(y, set_int_range(0, len));
        assert(false);
    }
}

proof fn lemma_first_free(base: Seq<char>, used: Seq<(Seq<char>, bool)>, n: nat, bound: nat, w: nat)
    requires
        2 <= n <= w < bound,
        map_get(used, numbered(base, w)) is None,
    ensures
        map_get(used, first_free_from(base, used, n, bound)) is None,
    decreases bound - n,
{
    if map_get(used, numbered(base, n)) is Some {
        lemma_first_free(base, used, n + 1, bound, w);
    }
}

/// The name `base` gets among `used`, which then records it.
pub(crate) fn dedupe(used: &mut StrMap<bool>, base: &str) -> (r: String)
    ensures
        r@ == dedupe_spec(base@, old(used)@),
        map_get(old(used)@, r@) is None,
        final(used)@ == crate::strmap::map_insert(old(used)@, r@, true),
{
    used.sorted();
    let ghost u = used@;
    if !used.contains_key(base) {
        let r = string_of(base);
        used.insert(string_of(base), true);
        return r;
    }
    proof {
        lemma_some_free(base@, u);
    }
    let n_len = used.len();
    let mut n: u128 = 2;
    let mut candidate = string_of(base);
    push_char(&mut candidate, '_');
    push_dec_wide(&mut candidate, n);
    assert(candidate@ =~= numbered(base@, 2));
    while used.contains_key(candidate.as_str())
        invariant
            u == used@,
            sorted_keys(u),
            2 <= n <= u.len() + 2,
            n_len == u.len(),
            candidate@ == numbered(base@, n as nat),
            first_free_from(base@, u, 2, u.len() + 3) == first_free_from(base@, u, n as nat, u.len() + 3),
            exists|w: nat| n <= w < u.len() + 3 && map_get(u, #[trigger] numbered(base@, w)) is None,
        decreases u.len() + 3 - n,
    {
        proof {
            let w = choose|w: nat| n <= w < u.len() + 3 && map_get(u, #[trigger] numbered(base@, w)) is None;
            assert(w != n);
        }
        n = n + 1;
        candidate = string_of(base);
        push_char(&mut candidate, '_');
        push_dec_wide(&mut candidate, n);
        assert(candidate@ =~= numbered(base@, n as nat));
    }
    let r = string_of(candidate.as_str());
    used.insert(candidate, true);
    r
}

/// Slug generation with umlaut transliteration and `_2`-style deduplication.
#[derive(Debug)]
pub struct SlugTable {
    used: StrMap<bool>,
}

impl Default for SlugTable {
    fn default() -> (t: SlugTable)
        ensures
            t.used_names().len() == 0,
    {
        SlugTable { used: StrMap::new() }
    }
}

impl SlugTable {
    pub fn new() -> (t: SlugTable)
        ensures
            t.used_names().len() == 0,
    {
        SlugTable { used: StrMap::new() }
    }

    /// The names handed out so far, in name order.
    pub closed spec fn used_names(&self) -> Seq<(Seq<char>, bool)> {
        self.used@
    }

    /// A fresh slug for `name`: its slugified form, deduplicated against
    /// every slug assigned before.
    pub fn assign(&mut self, name: &str) -> (r: String)
        ensures
            r@ == dedupe_spec(slugify_spec(name@), old(self).used_names()),
            map_get(old(self).used_names(), r@) is None,
            final(self).used_names() == crate::strmap::map_insert(old(self).used_names(), r@, true),
    {
        let base = slugify(name);
        dedupe(&mut self.used, base.as_str())
    }
}

// ---------------------------------------------------------------------------
// The lift: existing config → IR module (model)
// ---------------------------------------------------------------------------

/// The managed objects, in document order.
pub open spec fn managed_of(objs: Seq<(SObject, SElement)>, types: Seq<Seq<char>>) -> Seq<(SObject, SElement)>
    decreases objs.len(),
{
    if objs.len() == 0 {
        seq![]
    } else {
        managed_of(objs.drop_last(), types) + if types.contains(objs.last().0.block_type) {
            seq![objs.last()]
        } else {
            seq![]
        }
    }
}

pub open spec fn uuids(m: Seq<(SObject, SElement)>) -> Seq<Seq<char>> {
    m.map_values(|p: (SObject, SElement)| p.0.uuid)
}

/// Wires touching a managed object, as `(from object, from key, to object,
/// to key)`, in document order.
pub open spec fn touched_of(
    ws: Seq<(Seq<char>, Seq<char>)>,
    po: Seq<(Seq<char>, (Seq<char>, Seq<char>))>,
    managed: Seq<Seq<char>>,
) -> Seq<(Seq<char>, Seq<char>, Seq<char>, Seq<char>)>
    decreases ws.len(),
{
    if ws.len() == 0 {
        seq![]
    } else {
        let w = ws.last();
        touched_of(ws.drop_last(), po, managed) + match (last_assigned(po, w.0), last_assigned(po, w.1)) {
            (Some(f), Some(t)) => if managed.contains(f.0) || managed.contains(t.0) {
                seq![(f.0, f.1, t.0, t.1)]
            } else {
                seq![]
            },
            _ => seq![],
        }
    }
}

/// What an object's slug is made from: its title, else its IName, else
/// its type.
pub open spec fn base_name(o: SObject) -> Seq<char> {
    match o.title {
        Some(t) => t,
        None => match o.iname {
            Some(n) => n,
            None => o.block_type,
        },
    }
}

/// The slugs handed out so far (`used`), which object got which
/// (`slug_of`, UUID → slug), and the extern objects in order of first
/// reference.
pub struct Slugs {
    pub used: Seq<(Seq<char>, bool)>,
    pub slug_of: Seq<(Seq<char>, Seq<char>)>,
    pub externs: Seq<Seq<char>>,
}

pub open spec fn assign_slug(s: Slugs, uuid: Seq<char>, name: Seq<char>) -> Slugs {
    let slug = dedupe_spec(slugify_spec(name), s.used);
    Slugs {
        used: crate::strmap::map_insert(s.used, slug, true),
        slug_of: s.slug_of.push((uuid, slug)),
        externs: s.externs,
    }
}

pub open spec fn managed_slugs(m: Seq<(SObject, SElement)>) -> Slugs
    decreases m.len(),
{
    if m.len() == 0 {
        Slugs { used: seq![], slug_of: seq![], externs: seq![] }
    } else {
        assign_slug(managed_slugs(m.drop_last()), m.last().0.uuid, base_name(m.last().0))
    }
}

/// The first object with that UUID.
pub open spec fn first_obj(objs: Seq<(SObject, SElement)>, u: Seq<char>) -> Option<SObject>
    decreases objs.len(),
{
    if objs.len() == 0 {
        None
    } else if objs[0].0.uuid == u {
        Some(objs[0].0)
    } else {
        first_obj(objs.drop_first(), u)
    }
}

/// An object a managed wire reaches: an extern, slugged on first reference.
pub open spec fn extern_step(s: Slugs, objs: Seq<(SObject, SElement)>, managed: Seq<Seq<char>>, u: Seq<char>) -> Slugs {
    if !managed.contains(u) && lookup(s.slug_of, u) is None {
        match first_obj(objs, u) {
            Some(o) => {
                let s2 = assign_slug(s, u, base_name(o));
                Slugs { externs: s2.externs.push(u), ..s2 }
            },
            None => s,
        }
    } else {
        s
    }
}

pub open spec fn extern_slugs(
    t: Seq<(Seq<char>, Seq<char>, Seq<char>, Seq<char>)>,
    objs: Seq<(SObject, SElement)>,
    managed: Seq<Seq<char>>,
    s: Slugs,
) -> Slugs
    decreases t.len(),
{
    if t.len() == 0 {
        s
    } else {
        let p = extern_slugs(t.drop_last(), objs, managed, s);
        extern_step(extern_step(p, objs, managed, t.last().0), objs, managed, t.last().2)
    }
}

/// How many objects of type `ty` carry `v` as IName (`iname`) or title.
pub open spec fn count_field(objs: Seq<(SObject, SElement)>, ty: Seq<char>, iname: bool, v: Seq<char>) -> nat
    decreases objs.len(),
{
    if objs.len() == 0 {
        0
    } else {
        let o = objs.last().0;
        let f = if iname {
            o.iname
        } else {
            o.title
        };
        count_field(objs.drop_last(), ty, iname, v) + if o.block_type == ty && f == Some(v) {
            1nat
        } else {
            0nat
        }
    }
}

pub open spec fn unique_field(objs: Seq<(SObject, SElement)>, o: SObject, iname: bool) -> Option<Seq<char>> {
    let f = if iname {
        o.iname
    } else {
        o.title
    };
    match f {
        Some(v) => if count_field(objs, o.block_type, iname, v) == 1 {
            Some(v)
        } else {
            None
        },
        None => None,
    }
}

/// The most stable unique match: IName, else title, else the UUID.
pub open spec fn match_for(objs: Seq<(SObject, SElement)>, o: SObject) -> SMatch {
    match unique_field(objs, o, true) {
        Some(v) => SMatch::IName(v),
        None => match unique_field(objs, o, false) {
            Some(v) => SMatch::Title(v),
            None => SMatch::Uuid(o.uuid),
        },
    }
}

pub open spec fn extern_items(
    es: Seq<Seq<char>>,
    objs: Seq<(SObject, SElement)>,
    slug_of: Seq<(Seq<char>, Seq<char>)>,
) -> Seq<SItem>
    decreases es.len(),
{
    if es.len() == 0 {
        seq![]
    } else {
        let o = first_obj(objs, es.last())->0;
        extern_items(es.drop_last(), objs, slug_of).push(
            SItem::Extern(
                SExtern {
                    slug: lookup(slug_of, es.last())->0,
                    block_type: o.block_type,
                    match_spec: match_for(objs, o),
                    room: None,
                    category: None,
                    comment: None,
                },
            ),
        )
    }
}

/// A literal lifted from XML: a number when it reads as one, else a
/// string.
pub open spec fn lit_value(s: Seq<char>) -> SValue {
    if number_literal(s) {
        SValue::Number(s)
    } else {
        SValue::Str(s)
    }
}

pub open spec fn input_args(
    key: Seq<char>,
    inputs: Seq<Seq<char>>,
    po: Seq<(Seq<char>, (Seq<char>, Seq<char>))>,
    slug_of: Seq<(Seq<char>, Seq<char>)>,
) -> Seq<SArg>
    decreases inputs.len(),
{
    if inputs.len() == 0 {
        seq![]
    } else {
        input_args(key, inputs.drop_last(), po, slug_of) + match last_assigned(po, inputs.last()) {
            Some(src) => match lookup(slug_of, src.0) {
                Some(ss) => seq![
                    SArg::Binding(SBinding { port: key, kind: SKind::Wire((ss, src.1)), comment: None }),
                ],
                None => seq![],
            },
            None => seq![],
        }
    }
}

/// Per port in connector order: its `Def=` as a parameter, then each
/// incoming wire whose source has a slug.
pub open spec fn ports_args(
    ps: Seq<SPort>,
    po: Seq<(Seq<char>, (Seq<char>, Seq<char>))>,
    slug_of: Seq<(Seq<char>, Seq<char>)>,
) -> Seq<SArg>
    decreases ps.len(),
{
    if ps.len() == 0 {
        seq![]
    } else {
        let p = ps.last();
        ports_args(ps.drop_last(), po, slug_of) + match p.def {
            Some(d) => seq![SArg::Binding(SBinding { port: p.key, kind: SKind::Param(lit_value(d)), comment: None })],
            None => seq![],
        } + input_args(p.key, p.inputs, po, slug_of)
    }
}

pub open spec fn block_items(
    m: Seq<(SObject, SElement)>,
    po: Seq<(Seq<char>, (Seq<char>, Seq<char>))>,
    slug_of: Seq<(Seq<char>, Seq<char>)>,
) -> Seq<SItem>
    decreases m.len(),
{
    if m.len() == 0 {
        seq![]
    } else {
        let (o, e) = m.last();
        let slug = lookup(slug_of, o.uuid)->0;
        block_items(m.drop_last(), po, slug_of).push(
            SItem::Block(
                SBlock {
                    slug,
                    block_type: o.block_type,
                    title: match o.title {
                        Some(t) => if t != slug {
                            Some(t)
                        } else {
                            None
                        },
                        None => None,
                    },
                    args: ports_args(ports_spec(e), po, slug_of),
                    comment: None,
                    close_comment: None,
                },
            ),
        )
    }
}

/// Wires landing on extern ports, each once, in document order, with the
/// `(from, to)` pairs already emitted.
pub open spec fn wire_items(
    t: Seq<(Seq<char>, Seq<char>, Seq<char>, Seq<char>)>,
    managed: Seq<Seq<char>>,
    slug_of: Seq<(Seq<char>, Seq<char>)>,
) -> (Seq<SItem>, Seq<((Seq<char>, Seq<char>), (Seq<char>, Seq<char>))>)
    decreases t.len(),
{
    if t.len() == 0 {
        (seq![], seq![])
    } else {
        let (items, seen) = wire_items(t.drop_last(), managed, slug_of);
        let (fo, fk, to, tk) = t.last();
        if managed.contains(to) {
            (items, seen)
        } else {
            let from = (lookup(slug_of, fo)->0, fk);
            let sink = (lookup(slug_of, to)->0, tk);
            if seen.contains((from, sink)) {
                (items, seen)
            } else {
                (items.push(SItem::Wire(sink, from, None)), seen.push((from, sink)))
            }
        }
    }
}

/// Logic objects (not `Document`/`Page` containers) that got no slug.
pub open spec fn raw_count(objs: Seq<(SObject, SElement)>, slug_of: Seq<(Seq<char>, Seq<char>)>) -> nat
    decreases objs.len(),
{
    if objs.len() == 0 {
        0
    } else {
        let o = objs.last().0;
        raw_count(objs.drop_last(), slug_of) + if o.block_type != "Document"@ && o.block_type != "Page"@
            && lookup(slug_of, o.uuid) is None {
            1nat
        } else {
            0nat
        }
    }
}

/// Everything the lift computes from the document's objects.
pub struct Lift {
    pub managed: Seq<(SObject, SElement)>,
    pub touched: Seq<(Seq<char>, Seq<char>, Seq<char>, Seq<char>)>,
    pub slugs: Slugs,
    pub items: Seq<SItem>,
}

pub open spec fn lift_of(objs: Seq<(SObject, SElement)>, types: Seq<Seq<char>>) -> Lift {
    let m = managed_of(objs, types);
    let mu = uuids(m);
    let po = owner_assignments(objs);
    let t = touched_of(objects_wires(objs), po, mu);
    let s = extern_slugs(t, objs, mu, managed_slugs(m));
    Lift {
        managed: m,
        touched: t,
        slugs: s,
        items: extern_items(s.externs, objs, s.slug_of) + block_items(m, po, s.slug_of) + wire_items(
            t,
            mu,
            s.slug_of,
        ).0,
    }
}

// ---------------------------------------------------------------------------
// The lift (implementation)
// ---------------------------------------------------------------------------

/// Options of [`decompile`].
#[derive(Debug, Clone)]
pub struct DecompileOptions {
    /// Block types to lift into managed block declarations.
    pub managed_types: Vec<String>,
}

impl Default for DecompileOptions {
    /// The verified builtin types, so a compile can always rebuild what
    /// was lifted.
    fn default() -> (o: DecompileOptions)
        ensures
            o.managed_types@.map_values(|s: String| s@) == crate::connectors::builtin_type_names(),
    {
        let names = crate::connectors::builtin_types();
        let mut v: Vec<String> = Vec::new();
        let mut i: usize = 0;
        while i < names.len()
            invariant
                0 <= i <= names@.len(),
                names@.map_values(|s: &str| s@) == crate::connectors::builtin_type_names(),
                v@.map_values(|s: String| s@) == names@.map_values(|s: &str| s@).take(i as int),
            decreases names@.len() - i,
        {
            let x = string_of(names[i]);
            proof {
                assert(names@.map_values(|s: &str| s@)[i as int] == names@[i as int]@);
                assert(v@.push(x).map_values(|s: String| s@) =~= v@.map_values(|s: String| s@).push(x@));
                assert(v@.push(x).map_values(|s: String| s@) =~= names@.map_values(|s: &str| s@).take(i + 1));
            }
            v.push(x);
            i = i + 1;
        }
        proof {
            assert(names@.map_values(|s: &str| s@).take(names@.len() as int) =~= names@.map_values(|s: &str| s@));
        }
        DecompileOptions { managed_types: v }
    }
}

/// Counts of what a lift produced.
#[derive(Debug, Clone, Copy, PartialEq, Eq, Structural)]
pub struct DecompileReport {
    /// Objects lifted into managed block declarations.
    pub managed: usize,
    /// Objects referenced by managed wires, lifted into `extern`s.
    pub externs: usize,
    /// Logic objects left as raw XML (not counting `Document`/`Page`).
    pub raw_objects: usize,
}

pub open spec fn strs_v(v: Seq<String>) -> Seq<Seq<char>> {
    v.map_values(|s: String| s@)
}

spec fn pick(o: Seq<(SObject, SElement)>, idx: Seq<usize>) -> Seq<(SObject, SElement)> {
    idx.map_values(|i: usize| o[i as int])
}

spec fn pairs_v(v: Seq<(String, String)>) -> Seq<(Seq<char>, Seq<char>)> {
    v.map_values(|p: (String, String)| (p.0@, p.1@))
}

fn contains_string(v: &Vec<String>, s: &str) -> (r: bool)
    ensures
        r == strs_v(v@).contains(s@),
{
    let mut i: usize = 0;
    while i < v.len()
        invariant
            0 <= i <= v@.len(),
            forall|j: int| 0 <= j < i ==> v@[j]@ != s@,
        decreases v@.len() - i,
    {
        if crate::text::str_eq(v[i].as_str(), s) {
            proof {
                assert(strs_v(v@)[i as int] == s@);
            }
            return true;
        }
        i = i + 1;
    }
    proof {
        assert forall|j: int| 0 <= j < strs_v(v@).len() implies #[trigger] strs_v(v@)[j] != s@ by {
            assert(v@[j]@ != s@);
        }
    }
    false
}

fn managed_indices(objs: &Vec<ObjectSummary>, els: &Vec<&Element>, types: &Vec<String>) -> (r: Vec<usize>)
    requires
        objs@.len() == els@.len(),
    ensures
        pick(objects_view(objs@, els@), r@) == managed_of(objects_view(objs@, els@), strs_v(types@)),
        forall|k: int| 0 <= k < r@.len() ==> #[trigger] r@[k] < objs@.len(),
{
    let ghost O = objects_view(objs@, els@);
    let mut r: Vec<usize> = Vec::new();
    let mut i: usize = 0;
    while i < objs.len()
        invariant
            0 <= i <= objs@.len(),
            objs@.len() == els@.len(),
            O == objects_view(objs@, els@),
            pick(O, r@) == managed_of(O.take(i as int), strs_v(types@)),
            forall|k: int| 0 <= k < r@.len() ==> #[trigger] r@[k] < objs@.len(),
        decreases objs@.len() - i,
    {
        proof {
            assert(O.take(i + 1).drop_last() =~= O.take(i as int));
            assert(O.take(i + 1).last() == O[i as int]);
        }
        if contains_string(types, objs[i].block_type.as_str()) {
            proof {
                assert(pick(O, r@.push(i)) =~= pick(O, r@).push(O[i as int]));
            }
            r.push(i);
        } else {
            proof {
                assert(managed_of(O.take(i + 1), strs_v(types@)) =~= managed_of(O.take(i as int), strs_v(types@)));
            }
        }
        i = i + 1;
    }
    proof {
        assert(O.take(O.len() as int) =~= O);
    }
    r
}

fn is_managed_exec(objs: &Vec<ObjectSummary>, els: &Vec<&Element>, midx: &Vec<usize>, u: &str) -> (r: bool)
    requires
        objs@.len() == els@.len(),
        forall|k: int| 0 <= k < midx@.len() ==> #[trigger] midx@[k] < objs@.len(),
    ensures
        r == uuids(pick(objects_view(objs@, els@), midx@)).contains(u@),
{
    let ghost U = uuids(pick(objects_view(objs@, els@), midx@));
    let mut i: usize = 0;
    while i < midx.len()
        invariant
            0 <= i <= midx@.len(),
            objs@.len() == els@.len(),
            forall|k: int| 0 <= k < midx@.len() ==> #[trigger] midx@[k] < objs@.len(),
            U == uuids(pick(objects_view(objs@, els@), midx@)),
            forall|j: int| 0 <= j < i ==> U[j] != u@,
        decreases midx@.len() - i,
    {
        proof {
            assert(U[i as int] == objs@[midx@[i as int] as int].uuid@);
        }
        if crate::text::str_eq(objs[midx[i]].uuid.as_str(), u) {
            return true;
        }
        i = i + 1;
    }
    false
}

fn lookup_slug<'a>(slug_of: &'a Vec<(String, String)>, u: &str) -> (r: Option<&'a String>)
    ensures
        match lookup(pairs_v(slug_of@), u@) {
            Some(v) => r matches Some(s) && s@ == v,
            None => r is None,
        },
{
    let ghost all = pairs_v(slug_of@);
    let mut i: usize = slug_of.len();
    proof {
        assert(all.take(i as int) =~= all);
    }
    while i > 0
        invariant
            0 <= i <= slug_of@.len(),
            all == pairs_v(slug_of@),
            lookup(all, u@) == lookup(all.take(i as int), u@),
        decreases i,
    {
        proof {
            assert(all.take(i as int).drop_last() =~= all.take(i - 1));
        }
        if crate::text::str_eq(slug_of[i - 1].0.as_str(), u) {
            return Some(&slug_of[i - 1].1);
        }
        i = i - 1;
    }
    None
}

fn first_obj_exec<'a>(objs: &'a Vec<ObjectSummary>, els: &Vec<&Element>, u: &str) -> (r: Option<&'a ObjectSummary>)
    requires
        objs@.len() == els@.len(),
    ensures
        match first_obj(objects_view(objs@, els@), u@) {
            Some(o) => r matches Some(x) && x@ == o,
            None => r is None,
        },
{
    let ghost O = objects_view(objs@, els@);
    let mut i: usize = 0;
    proof {
        assert(O.skip(0) =~= O);
    }
    while i < objs.len()
        invariant
            0 <= i <= objs@.len(),
            objs@.len() == els@.len(),
            O == objects_view(objs@, els@),
            first_obj(O, u@) == first_obj(O.skip(i as int), u@),
        decreases objs@.len() - i,
    {
        proof {
            assert(O.skip(i as int).drop_first() =~= O.skip(i + 1));
            assert(O.skip(i as int)[0] == O[i as int]);
        }
        if crate::text::str_eq(objs[i].uuid.as_str(), u) {
            return Some(&objs[i]);
        }
        i = i + 1;
    }
    None
}

fn count_field_exec(objs: &Vec<ObjectSummary>, els: &Vec<&Element>, ty: &str, iname: bool, v: &str) -> (n: usize)
    requires
        objs@.len() == els@.len(),
    ensures
        n == count_field(objects_view(objs@, els@), ty@, iname, v@),
{
    let ghost O = objects_view(objs@, els@);
    let mut n: usize = 0;
    let mut i: usize = 0;
    while i < objs.len()
        invariant
            0 <= i <= objs@.len(),
            n <= i,
            objs@.len() == els@.len(),
            O == objects_view(objs@, els@),
            n == count_field(O.take(i as int), ty@, iname, v@),
        decreases objs@.len() - i,
    {
        proof {
            assert(O.take(i + 1).drop_last() =~= O.take(i as int));
            assert(O.take(i + 1).last() == O[i as int]);
        }
        let o = &objs[i];
        let f = if iname {
            &o.iname
        } else {
            &o.title
        };
        let hit = match f {
            Some(x) => crate::text::str_eq(x.as_str(), v),
            None => false,
        };
        if crate::text::str_eq(o.block_type.as_str(), ty) && hit {
            n = n + 1;
        }
        i = i + 1;
    }
    proof {
        assert(O.take(O.len() as int) =~= O);
    }
    n
}

fn unique_field_exec<'a>(objs: &Vec<ObjectSummary>, els: &Vec<&Element>, o: &'a ObjectSummary, iname: bool) -> (r: Option<&'a String>)
    requires
        objs@.len() == els@.len(),
    ensures
        match unique_field(objects_view(objs@, els@), o@, iname) {
            Some(v) => r matches Some(x) && x@ == v,
            None => r is None,
        },
{
    let f = if iname {
        &o.iname
    } else {
        &o.title
    };
    match f {
        Some(v) => {
            if count_field_exec(objs, els, o.block_type.as_str(), iname, v.as_str()) == 1 {
                Some(v)
            } else {
                None
            }
        },
        None => None,
    }
}

fn match_for_exec(objs: &Vec<ObjectSummary>, els: &Vec<&Element>, o: &ObjectSummary) -> (r: MatchSpec)
    requires
        objs@.len() == els@.len(),
    ensures
        crate::ir::model::match_v(r) == match_for(objects_view(objs@, els@), o@),
{
    match unique_field_exec(objs, els, o, true) {
        Some(v) => MatchSpec::IName(v.clone()),
        None => match unique_field_exec(objs, els, o, false) {
            Some(v) => MatchSpec::Title(v.clone()),
            None => MatchSpec::Uuid(o.uuid.clone()),
        },
    }
}

// Facts the lift relies on: every object a wire reaches exists, and every
// object that needs a slug has one.

proof fn lemma_last_assigned_entry<V>(s: Seq<(Seq<char>, V)>, k: Seq<char>)
    ensures
        last_assigned(s, k) matches Some(v) ==> exists|q: int| 0 <= q < s.len() && #[trigger] s[q] == (k, v),
    decreases s.len(),
{
    if s.len() > 0 && s.last().0 != k {
        lemma_last_assigned_entry(s.drop_last(), k);
        if let Some(v) = last_assigned(s, k) {
            let q = choose|q: int| 0 <= q < s.drop_last().len() && #[trigger] s.drop_last()[q] == (k, v);
            assert(s[q] == (k, v));
        }
    } else if s.len() > 0 {
        assert(s[s.len() - 1] == (k, s.last().1));
    }
}

proof fn lemma_owner_entry(objs: Seq<(SObject, SElement)>, q: int)
    requires
        0 <= q < owner_assignments(objs).len(),
    ensures
        exists|i: int| 0 <= i < objs.len() && #[trigger] objs[i].0.uuid == owner_assignments(objs)[q].1.0,
    decreases objs.len(),
{
    let d = objs.drop_last();
    let a = owner_assignments(d);
    let b = crate::doc::owner_assignments_of(objs.last().0, ports_spec(objs.last().1));
    assert(owner_assignments(objs) == a + b);
    if q < a.len() {
        lemma_owner_entry(d, q);
        let i = choose|i: int| 0 <= i < d.len() && #[trigger] d[i].0.uuid == a[q].1.0;
        assert(objs[i] == d[i]);
    } else {
        assert((a + b)[q] == b[q - a.len()]);
        assert(objs[objs.len() - 1].0.uuid == owner_assignments(objs)[q].1.0);
    }
}

proof fn lemma_first_obj_some(objs: Seq<(SObject, SElement)>, i: int)
    requires
        0 <= i < objs.len(),
    ensures
        first_obj(objs, objs[i].0.uuid) is Some,
    decreases i,
{
    if i > 0 && objs[0].0.uuid != objs[i].0.uuid {
        lemma_first_obj_some(objs.drop_first(), i - 1);
        assert(objs.drop_first()[i - 1] == objs[i]);
    }
}

/// The owner of a known port is an object of the document.
proof fn lemma_owner_exists(objs: Seq<(SObject, SElement)>, k: Seq<char>)
    ensures
        last_assigned(owner_assignments(objs), k) matches Some(v) ==> first_obj(objs, v.0) is Some,
{
    let s = owner_assignments(objs);
    lemma_last_assigned_entry(s, k);
    if let Some(v) = last_assigned(s, k) {
        let q = choose|q: int| 0 <= q < s.len() && #[trigger] s[q] == (k, v);
        lemma_owner_entry(objs, q);
        let i = choose|i: int| 0 <= i < objs.len() && #[trigger] objs[i].0.uuid == s[q].1.0;
        lemma_first_obj_some(objs, i);
    }
}

proof fn lemma_touched_exist(
    objs: Seq<(SObject, SElement)>,
    ws: Seq<(Seq<char>, Seq<char>)>,
    managed: Seq<Seq<char>>,
)
    ensures
        forall|q: int| 0 <= q < touched_of(ws, owner_assignments(objs), managed).len() ==> first_obj(
            objs,
            (#[trigger] touched_of(ws, owner_assignments(objs), managed)[q]).0,
        ) is Some && first_obj(objs, touched_of(ws, owner_assignments(objs), managed)[q].2) is Some,
    decreases ws.len(),
{
    if ws.len() > 0 {
        let po = owner_assignments(objs);
        lemma_touched_exist(objs, ws.drop_last(), managed);
        lemma_owner_exists(objs, ws.last().0);
        lemma_owner_exists(objs, ws.last().1);
        let t = touched_of(ws, po, managed);
        let p = touched_of(ws.drop_last(), po, managed);
        assert forall|q: int| 0 <= q < t.len() implies first_obj(objs, (#[trigger] t[q]).0) is Some && first_obj(
            objs,
            t[q].2,
        ) is Some by {
            if q < p.len() {
                assert(t[q] == p[q]);
            }
        }
    }
}

proof fn lemma_lookup_push<V>(s: Seq<(Seq<char>, V)>, x: (Seq<char>, V), k: Seq<char>)
    ensures
        lookup(s.push(x), k) == if x.0 == k {
            Some(x.1)
        } else {
            lookup(s, k)
        },
{
    assert(s.push(x).drop_last() =~= s);
}

proof fn lemma_managed_slugs(m: Seq<(SObject, SElement)>)
    ensures
        managed_slugs(m).externs.len() == 0,
        forall|i: int| 0 <= i < m.len() ==> lookup(managed_slugs(m).slug_of, (#[trigger] m[i]).0.uuid) is Some,
    decreases m.len(),
{
    if m.len() > 0 {
        lemma_managed_slugs(m.drop_last());
        let p = managed_slugs(m.drop_last());
        let r = managed_slugs(m);
        assert forall|i: int| 0 <= i < m.len() implies lookup(r.slug_of, (#[trigger] m[i]).0.uuid) is Some by {
            lemma_lookup_push(p.slug_of, r.slug_of.last(), m[i].0.uuid);
            assert(r.slug_of == p.slug_of.push(r.slug_of.last()));
            if i < m.len() - 1 {
                assert(m.drop_last()[i] == m[i]);
            }
        }
    }
}

/// What the extern phase keeps: every managed object and every extern
/// has a slug, and every extern exists.
pub open spec fn slugs_ok(s: Slugs, objs: Seq<(SObject, SElement)>, managed: Seq<Seq<char>>) -> bool {
    &&& forall|i: int| 0 <= i < managed.len() ==> lookup(s.slug_of, #[trigger] managed[i]) is Some
    &&& forall|i: int| 0 <= i < s.externs.len() ==> lookup(s.slug_of, #[trigger] s.externs[i]) is Some
        && first_obj(objs, s.externs[i]) is Some
}

proof fn lemma_extern_step(s: Slugs, objs: Seq<(SObject, SElement)>, managed: Seq<Seq<char>>, u: Seq<char>)
    requires
        slugs_ok(s, objs, managed),
        first_obj(objs, u) is Some,
    ensures
        slugs_ok(extern_step(s, objs, managed, u), objs, managed),
        lookup(extern_step(s, objs, managed, u).slug_of, u) is Some,
        forall|k: Seq<char>| lookup(s.slug_of, k) is Some ==> #[trigger] lookup(extern_step(s, objs, managed, u).slug_of, k) is Some,
{
    let r = extern_step(s, objs, managed, u);
    if !managed.contains(u) && lookup(s.slug_of, u) is None {
        let slug = dedupe_spec(slugify_spec(base_name(first_obj(objs, u)->0)), s.used);
        assert(r.slug_of == s.slug_of.push((u, slug)));
        assert forall|k: Seq<char>| lookup(s.slug_of, k) is Some implies #[trigger] lookup(r.slug_of, k) is Some by {
            lemma_lookup_push(s.slug_of, (u, slug), k);
        }
        lemma_lookup_push(s.slug_of, (u, slug), u);
        assert forall|i: int| 0 <= i < managed.len() implies lookup(r.slug_of, #[trigger] managed[i]) is Some by {
            lemma_lookup_push(s.slug_of, (u, slug), managed[i]);
        }
        assert forall|i: int| 0 <= i < r.externs.len() implies lookup(r.slug_of, #[trigger] r.externs[i]) is Some
            && first_obj(objs, r.externs[i]) is Some by {
            lemma_lookup_push(s.slug_of, (u, slug), r.externs[i]);
            if i < s.externs.len() {
                assert(r.externs[i] == s.externs[i]);
            }
        }
    } else if managed.contains(u) {
        let i = choose|i: int| 0 <= i < managed.len() && managed[i] == u;
        assert(lookup(s.slug_of, managed[i]) is Some);
    }
}

proof fn lemma_extern_slugs(
    t: Seq<(Seq<char>, Seq<char>, Seq<char>, Seq<char>)>,
    objs: Seq<(SObject, SElement)>,
    managed: Seq<Seq<char>>,
    s: Slugs,
)
    requires
        slugs_ok(s, objs, managed),
        forall|q: int| 0 <= q < t.len() ==> first_obj(objs, (#[trigger] t[q]).0) is Some && first_obj(objs, t[q].2) is Some,
    ensures
        slugs_ok(extern_slugs(t, objs, managed, s), objs, managed),
        forall|q: int| 0 <= q < t.len() ==> lookup(extern_slugs(t, objs, managed, s).slug_of, (#[trigger] t[q]).0) is Some
            && lookup(extern_slugs(t, objs, managed, s).slug_of, t[q].2) is Some,
    decreases t.len(),
{
    if t.len() > 0 {
        let d = t.drop_last();
        assert forall|q: int| 0 <= q < d.len() implies first_obj(objs, (#[trigger] d[q]).0) is Some && first_obj(objs, d[q].2) is Some by {
            assert(d[q] == t[q]);
        }
        lemma_extern_slugs(d, objs, managed, s);
        let p = extern_slugs(d, objs, managed, s);
        assert(t.last() == t[t.len() - 1]);
        lemma_extern_step(p, objs, managed, t.last().0);
        let p1 = extern_step(p, objs, managed, t.last().0);
        lemma_extern_step(p1, objs, managed, t.last().2);
        let r = extern_slugs(t, objs, managed, s);
        assert forall|q: int| 0 <= q < t.len() implies lookup(r.slug_of, (#[trigger] t[q]).0) is Some
            && lookup(r.slug_of, t[q].2) is Some by {
            if q < t.len() - 1 {
                assert(d[q] == t[q]);
                assert(lookup(p.slug_of, d[q].0) is Some);
                assert(lookup(p1.slug_of, d[q].0) is Some);
                assert(lookup(p.slug_of, d[q].2) is Some);
                assert(lookup(p1.slug_of, d[q].2) is Some);
            } else {
                assert(lookup(p1.slug_of, t.last().0) is Some);
            }
        }
    }
}

pub open spec fn index_ok(idx: crate::doc::DocIndex, objs: Seq<(SObject, SElement)>) -> bool {
    forall|k: Seq<char>|
        match #[trigger] map_get(idx.port_owner@, k) {
            Some(v) => last_assigned(owner_assignments(objs), k) == Some((v.0@, v.1@)),
            None => last_assigned(owner_assignments(objs), k) is None,
        }
}

spec fn quads_v(v: Seq<(String, String, String, String)>) -> Seq<(Seq<char>, Seq<char>, Seq<char>, Seq<char>)> {
    v.map_values(|q: (String, String, String, String)| (q.0@, q.1@, q.2@, q.3@))
}

fn touched_exec(
    wires: &Vec<crate::doc::WireView>,
    idx: &crate::doc::DocIndex,
    objs: &Vec<ObjectSummary>,
    els: &Vec<&Element>,
    midx: &Vec<usize>,
) -> (r: Vec<(String, String, String, String)>)
    requires
        objs@.len() == els@.len(),
        forall|k: int| 0 <= k < midx@.len() ==> #[trigger] midx@[k] < objs@.len(),
        index_ok(*idx, objects_view(objs@, els@)),
    ensures
        quads_v(r@) == touched_of(
            wires@.map_values(|w: crate::doc::WireView| w@),
            owner_assignments(objects_view(objs@, els@)),
            uuids(pick(objects_view(objs@, els@), midx@)),
        ),
{
    let ghost W = wires@.map_values(|w: crate::doc::WireView| w@);
    let ghost PO = owner_assignments(objects_view(objs@, els@));
    let ghost MU = uuids(pick(objects_view(objs@, els@), midx@));
    let mut r: Vec<(String, String, String, String)> = Vec::new();
    let mut i: usize = 0;
    while i < wires.len()
        invariant
            0 <= i <= wires@.len(),
            objs@.len() == els@.len(),
            forall|k: int| 0 <= k < midx@.len() ==> #[trigger] midx@[k] < objs@.len(),
            index_ok(*idx, objects_view(objs@, els@)),
            W == wires@.map_values(|w: crate::doc::WireView| w@),
            PO == owner_assignments(objects_view(objs@, els@)),
            MU == uuids(pick(objects_view(objs@, els@), midx@)),
            quads_v(r@) == touched_of(W.take(i as int), PO, MU),
        decreases wires@.len() - i,
    {
        proof {
            assert(W.take(i + 1).drop_last() =~= W.take(i as int));
            assert(W.take(i + 1).last() == wires@[i as int]@);
        }
        let w = &wires[i];
        let f = idx.port_owner.get(w.from_port.as_str());
        let t = idx.port_owner.get(w.to_port.as_str());
        proof {
            let _ = map_get(idx.port_owner@, w.from_port@);
            let _ = map_get(idx.port_owner@, w.to_port@);
        }
        if let (Some(f), Some(t)) = (f, t) {
            if is_managed_exec(objs, els, midx, f.0.as_str()) || is_managed_exec(objs, els, midx, t.0.as_str()) {
                let q = (f.0.clone(), f.1.clone(), t.0.clone(), t.1.clone());
                proof {
                    assert(quads_v(r@.push(q)) =~= quads_v(r@).push((q.0@, q.1@, q.2@, q.3@)));
                }
                r.push(q);
            }
        }
        i = i + 1;
    }
    proof {
        assert(W.take(W.len() as int) =~= W);
    }
    r
}

spec fn slugs_v(used: StrMap<bool>, slug_of: Seq<(String, String)>, externs: Seq<String>) -> Slugs {
    Slugs { used: used@, slug_of: pairs_v(slug_of), externs: strs_v(externs) }
}

fn base_name_exec(o: &ObjectSummary) -> (r: &str)
    ensures
        r@ == base_name(o@),
{
    match &o.title {
        Some(t) => t.as_str(),
        None => match &o.iname {
            Some(n) => n.as_str(),
            None => o.block_type.as_str(),
        },
    }
}

fn assign_exec(used: &mut StrMap<bool>, slug_of: &mut Vec<(String, String)>, uuid: &str, name: &str)
    ensures
        ({
            let s = assign_slug(
                Slugs { used: old(used)@, slug_of: pairs_v(old(slug_of)@), externs: seq![] },
                uuid@,
                name@,
            );
            &&& final(used)@ == s.used
            &&& pairs_v(final(slug_of)@) == s.slug_of
        }),
{
    let base = slugify(name);
    let slug = dedupe(used, base.as_str());
    let rec = (string_of(uuid), slug);
    proof {
        assert(pairs_v(slug_of@.push(rec)) =~= pairs_v(slug_of@).push((uuid@, rec.1@)));
    }
    slug_of.push(rec);
}

fn managed_slugs_exec(
    objs: &Vec<ObjectSummary>,
    els: &Vec<&Element>,
    midx: &Vec<usize>,
) -> (r: (StrMap<bool>, Vec<(String, String)>))
    requires
        objs@.len() == els@.len(),
        forall|k: int| 0 <= k < midx@.len() ==> #[trigger] midx@[k] < objs@.len(),
    ensures
        slugs_v(r.0, r.1@, seq![]) == managed_slugs(pick(objects_view(objs@, els@), midx@)),
{
    let ghost M = pick(objects_view(objs@, els@), midx@);
    let mut used: StrMap<bool> = StrMap::new();
    let mut slug_of: Vec<(String, String)> = Vec::new();
    let mut i: usize = 0;
    proof {
        assert(pairs_v(slug_of@) =~= Seq::<(Seq<char>, Seq<char>)>::empty());
        assert(strs_v(Seq::<String>::empty()) =~= Seq::<Seq<char>>::empty());
        assert(M.take(0) =~= Seq::<(SObject, SElement)>::empty());
    }
    while i < midx.len()
        invariant
            0 <= i <= midx@.len(),
            objs@.len() == els@.len(),
            forall|k: int| 0 <= k < midx@.len() ==> #[trigger] midx@[k] < objs@.len(),
            M == pick(objects_view(objs@, els@), midx@),
            slugs_v(used, slug_of@, seq![]) == managed_slugs(M.take(i as int)),
        decreases midx@.len() - i,
    {
        proof {
            assert(M.take(i + 1).drop_last() =~= M.take(i as int));
            assert(M.take(i + 1).last() == M[i as int]);
            assert(M[i as int].0 == objs@[midx@[i as int] as int]@);
        }
        let o = &objs[midx[i]];
        assign_exec(&mut used, &mut slug_of, o.uuid.as_str(), base_name_exec(o));
        proof {
            assert(strs_v(Seq::<String>::empty()) =~= Seq::<Seq<char>>::empty());
        }
        i = i + 1;
    }
    proof {
        assert(M.take(M.len() as int) =~= M);
    }
    (used, slug_of)
}

fn extern_step_exec(
    objs: &Vec<ObjectSummary>,
    els: &Vec<&Element>,
    midx: &Vec<usize>,
    used: &mut StrMap<bool>,
    slug_of: &mut Vec<(String, String)>,
    externs: &mut Vec<String>,
    u: &str,
)
    requires
        objs@.len() == els@.len(),
        forall|k: int| 0 <= k < midx@.len() ==> #[trigger] midx@[k] < objs@.len(),
    ensures
        slugs_v(*final(used), final(slug_of)@, final(externs)@) == extern_step(
            slugs_v(*old(used), old(slug_of)@, old(externs)@),
            objects_view(objs@, els@),
            uuids(pick(objects_view(objs@, els@), midx@)),
            u@,
        ),
{
    if is_managed_exec(objs, els, midx, u) || lookup_slug(slug_of, u).is_some() {
        return;
    }
    match first_obj_exec(objs, els, u) {
        Some(o) => {
            assign_exec(used, slug_of, u, base_name_exec(o));
            let x = string_of(u);
            proof {
                assert(strs_v(externs@.push(x)) =~= strs_v(externs@).push(u@));
            }
            externs.push(x);
        },
        None => {},
    }
}

fn extern_slugs_exec(
    objs: &Vec<ObjectSummary>,
    els: &Vec<&Element>,
    midx: &Vec<usize>,
    touched: &Vec<(String, String, String, String)>,
    used: &mut StrMap<bool>,
    slug_of: &mut Vec<(String, String)>,
    externs: &mut Vec<String>,
)
    requires
        objs@.len() == els@.len(),
        forall|k: int| 0 <= k < midx@.len() ==> #[trigger] midx@[k] < objs@.len(),
    ensures
        slugs_v(*final(used), final(slug_of)@, final(externs)@) == extern_slugs(
            quads_v(touched@),
            objects_view(objs@, els@),
            uuids(pick(objects_view(objs@, els@), midx@)),
            slugs_v(*old(used), old(slug_of)@, old(externs)@),
        ),
{
    let ghost T = quads_v(touched@);
    let ghost O = objects_view(objs@, els@);
    let ghost MU = uuids(pick(O, midx@));
    let ghost s0 = slugs_v(*used, slug_of@, externs@);
    let mut i: usize = 0;
    proof {
        assert(T.take(0) =~= Seq::<(Seq<char>, Seq<char>, Seq<char>, Seq<char>)>::empty());
    }
    while i < touched.len()
        invariant
            0 <= i <= touched@.len(),
            objs@.len() == els@.len(),
            forall|k: int| 0 <= k < midx@.len() ==> #[trigger] midx@[k] < objs@.len(),
            T == quads_v(touched@),
            O == objects_view(objs@, els@),
            MU == uuids(pick(O, midx@)),
            s0 == slugs_v(*old(used), old(slug_of)@, old(externs)@),
            slugs_v(*used, slug_of@, externs@) == extern_slugs(T.take(i as int), O, MU, s0),
        decreases touched@.len() - i,
    {
        proof {
            assert(T.take(i + 1).drop_last() =~= T.take(i as int));
            assert(T.take(i + 1).last() == T[i as int]);
        }
        extern_step_exec(objs, els, midx, used, slug_of, externs, touched[i].0.as_str());
        extern_step_exec(objs, els, midx, used, slug_of, externs, touched[i].2.as_str());
        i = i + 1;
    }
    proof {
        assert(T.take(T.len() as int) =~= T);
    }
}

fn extern_items_exec(
    objs: &Vec<ObjectSummary>,
    els: &Vec<&Element>,
    externs: &Vec<String>,
    slug_of: &Vec<(String, String)>,
    out: &mut Vec<Item>,
)
    requires
        objs@.len() == els@.len(),
        forall|i: int| 0 <= i < externs@.len() ==> lookup(pairs_v(slug_of@), (#[trigger] externs@[i])@) is Some
            && first_obj(objects_view(objs@, els@), externs@[i]@) is Some,
    ensures
        items_v(final(out)@) == items_v(old(out)@) + extern_items(
            strs_v(externs@),
            objects_view(objs@, els@),
            pairs_v(slug_of@),
        ),
{
    let ghost E = strs_v(externs@);
    let ghost O = objects_view(objs@, els@);
    let ghost S = pairs_v(slug_of@);
    let ghost o0 = items_v(out@);
    let mut i: usize = 0;
    proof {
        assert(E.take(0) =~= Seq::<Seq<char>>::empty());
        assert(o0 + extern_items(E.take(0), O, S) =~= o0);
    }
    while i < externs.len()
        invariant
            0 <= i <= externs@.len(),
            objs@.len() == els@.len(),
            forall|i: int| 0 <= i < externs@.len() ==> lookup(pairs_v(slug_of@), (#[trigger] externs@[i])@) is Some
                && first_obj(objects_view(objs@, els@), externs@[i]@) is Some,
            E == strs_v(externs@),
            O == objects_view(objs@, els@),
            S == pairs_v(slug_of@),
            items_v(out@) == o0 + extern_items(E.take(i as int), O, S),
        decreases externs@.len() - i,
    {
        proof {
            assert(E.take(i + 1).drop_last() =~= E.take(i as int));
            assert(E.take(i + 1).last() == externs@[i as int]@);
        }
        let u = externs[i].as_str();
        let o = first_obj_exec(objs, els, u).unwrap();
        let slug = lookup_slug(slug_of, u).unwrap().clone();
        let it = Item::Extern(
            crate::ir::ast::ExternDecl {
                slug,
                block_type: o.block_type.clone(),
                match_spec: match_for_exec(objs, els, o),
                room: None,
                category: None,
                comment: None,
            },
        );
        proof {
            crate::ir::copy::lemma_items_v_push(out@, it);
        }
        out.push(it);
        i = i + 1;
    }
    proof {
        assert(E.take(E.len() as int) =~= E);
    }
}

fn input_args_exec(
    key: &String,
    inputs: &Vec<String>,
    idx: &crate::doc::DocIndex,
    slug_of: &Vec<(String, String)>,
    objs: Ghost<Seq<(SObject, SElement)>>,
    args: &mut Vec<ArgItem>,
)
    requires
        index_ok(*idx, objs@),
    ensures
        args_v(final(args)@) == args_v(old(args)@) + input_args(
            key@,
            strs_v(inputs@),
            owner_assignments(objs@),
            pairs_v(slug_of@),
        ),
{
    let ghost I = strs_v(inputs@);
    let ghost PO = owner_assignments(objs@);
    let ghost a0 = args_v(args@);
    let mut i: usize = 0;
    proof {
        assert(I.take(0) =~= Seq::<Seq<char>>::empty());
        assert(a0 + input_args(key@, I.take(0), PO, pairs_v(slug_of@)) =~= a0);
    }
    while i < inputs.len()
        invariant
            0 <= i <= inputs@.len(),
            index_ok(*idx, objs@),
            I == strs_v(inputs@),
            PO == owner_assignments(objs@),
            args_v(args@) == a0 + input_args(key@, I.take(i as int), PO, pairs_v(slug_of@)),
        decreases inputs@.len() - i,
    {
        proof {
            assert(I.take(i + 1).drop_last() =~= I.take(i as int));
            assert(I.take(i + 1).last() == inputs@[i as int]@);
            let _ = map_get(idx.port_owner@, inputs@[i as int]@);
        }
        if let Some(src) = idx.port_owner.get(inputs[i].as_str()) {
            if let Some(ss) = lookup_slug(slug_of, src.0.as_str()) {
                let a = ArgItem::Binding(
                    Binding {
                        port: key.clone(),
                        kind: BindingKind::Wire(PortRef { slug: ss.clone(), port: src.1.clone() }),
                        comment: None,
                    },
                );
                proof {
                    assert(args_v(args@.push(a)) =~= args_v(args@).push(arg_v(a)));
                }
                args.push(a);
            }
        }
        proof {
            assert(args_v(args@) =~= a0 + input_args(key@, I.take(i + 1), PO, pairs_v(slug_of@)));
        }
        i = i + 1;
    }
    proof {
        assert(I.take(I.len() as int) =~= I);
    }
}

fn ports_args_exec(
    el: &Element,
    idx: &crate::doc::DocIndex,
    slug_of: &Vec<(String, String)>,
    objs: Ghost<Seq<(SObject, SElement)>>,
) -> (r: Vec<ArgItem>)
    requires
        index_ok(*idx, objs@),
    ensures
        args_v(r@) == ports_args(ports_spec(el@), owner_assignments(objs@), pairs_v(slug_of@)),
{
    let ps = crate::doc::ports(el);
    let ghost P = ps@.map_values(|p: crate::doc::PortView| p@);
    let ghost PO = owner_assignments(objs@);
    let mut args: Vec<ArgItem> = Vec::new();
    let mut i: usize = 0;
    proof {
        assert(P.take(0) =~= Seq::<SPort>::empty());
        assert(args_v(args@) =~= Seq::<SArg>::empty());
    }
    while i < ps.len()
        invariant
            0 <= i <= ps@.len(),
            index_ok(*idx, objs@),
            P == ps@.map_values(|p: crate::doc::PortView| p@),
            P == ports_spec(el@),
            PO == owner_assignments(objs@),
            args_v(args@) == ports_args(P.take(i as int), PO, pairs_v(slug_of@)),
        decreases ps@.len() - i,
    {
        proof {
            assert(P.take(i + 1).drop_last() =~= P.take(i as int));
            assert(P.take(i + 1).last() == ps@[i as int]@);
        }
        let p = &ps[i];
        let ghost a0 = args_v(args@);
        if let Some(d) = &p.def {
            let a = ArgItem::Binding(
                Binding { port: p.key.clone(), kind: BindingKind::Param(Value::from_literal(d.as_str())), comment: None },
            );
            proof {
                assert(args_v(args@.push(a)) =~= args_v(args@).push(arg_v(a)));
            }
            args.push(a);
        }
        let ghost a1 = args_v(args@);
        input_args_exec(&p.key, &p.inputs, idx, slug_of, objs, &mut args);
        proof {
            assert(p@.inputs == strs_v(p.inputs@));
            assert(args_v(args@) =~= ports_args(P.take(i + 1), PO, pairs_v(slug_of@)));
        }
        i = i + 1;
    }
    proof {
        assert(P.take(P.len() as int) =~= P);
    }
    args
}

fn block_items_exec(
    objs: &Vec<ObjectSummary>,
    els: &Vec<&Element>,
    midx: &Vec<usize>,
    idx: &crate::doc::DocIndex,
    slug_of: &Vec<(String, String)>,
    out: &mut Vec<Item>,
)
    requires
        objs@.len() == els@.len(),
        forall|k: int| 0 <= k < midx@.len() ==> #[trigger] midx@[k] < objs@.len(),
        index_ok(*idx, objects_view(objs@, els@)),
        forall|i: int| 0 <= i < midx@.len() ==> lookup(pairs_v(slug_of@), objs@[(#[trigger] midx@[i]) as int].uuid@) is Some,
    ensures
        items_v(final(out)@) == items_v(old(out)@) + block_items(
            pick(objects_view(objs@, els@), midx@),
            owner_assignments(objects_view(objs@, els@)),
            pairs_v(slug_of@),
        ),
{
    let ghost O = objects_view(objs@, els@);
    let ghost M = pick(O, midx@);
    let ghost PO = owner_assignments(O);
    let ghost S = pairs_v(slug_of@);
    let ghost o0 = items_v(out@);
    let mut i: usize = 0;
    proof {
        assert(M.take(0) =~= Seq::<(SObject, SElement)>::empty());
        assert(o0 + block_items(M.take(0), PO, S) =~= o0);
    }
    while i < midx.len()
        invariant
            0 <= i <= midx@.len(),
            objs@.len() == els@.len(),
            forall|k: int| 0 <= k < midx@.len() ==> #[trigger] midx@[k] < objs@.len(),
            index_ok(*idx, O),
            forall|i: int| 0 <= i < midx@.len() ==> lookup(pairs_v(slug_of@), objs@[(#[trigger] midx@[i]) as int].uuid@) is Some,
            O == objects_view(objs@, els@),
            M == pick(O, midx@),
            PO == owner_assignments(O),
            S == pairs_v(slug_of@),
            items_v(out@) == o0 + block_items(M.take(i as int), PO, S),
        decreases midx@.len() - i,
    {
        proof {
            assert(M.take(i + 1).drop_last() =~= M.take(i as int));
            assert(M.take(i + 1).last() == M[i as int]);
            assert(M[i as int] == (objs@[midx@[i as int] as int]@, els@[midx@[i as int] as int]@));
        }
        let o = &objs[midx[i]];
        let el = els[midx[i]];
        let slug = lookup_slug(slug_of, o.uuid.as_str()).unwrap().clone();
        let title = match &o.title {
            Some(t) => if crate::text::str_eq(t.as_str(), slug.as_str()) {
                None
            } else {
                Some(t.clone())
            },
            None => None,
        };
        let args = ports_args_exec(el, idx, slug_of, Ghost(O));
        let it = Item::Block(
            crate::ir::ast::BlockDecl {
                slug,
                block_type: o.block_type.clone(),
                title,
                args,
                comment: None,
                close_comment: None,
            },
        );
        proof {
            crate::ir::copy::lemma_items_v_push(out@, it);
        }
        out.push(it);
        i = i + 1;
    }
    proof {
        assert(M.take(M.len() as int) =~= M);
    }
}

spec fn seen_v(v: Seq<(PortRef, PortRef)>) -> Seq<((Seq<char>, Seq<char>), (Seq<char>, Seq<char>))> {
    v.map_values(|p: (PortRef, PortRef)| (crate::ir::ast::port_view(p.0), crate::ir::ast::port_view(p.1)))
}

fn seen_contains(seen: &Vec<(PortRef, PortRef)>, from: &PortRef, to: &PortRef) -> (r: bool)
    ensures
        r == seen_v(seen@).contains((crate::ir::ast::port_view(*from), crate::ir::ast::port_view(*to))),
{
    let ghost x = (crate::ir::ast::port_view(*from), crate::ir::ast::port_view(*to));
    let mut i: usize = 0;
    while i < seen.len()
        invariant
            0 <= i <= seen@.len(),
            x == (crate::ir::ast::port_view(*from), crate::ir::ast::port_view(*to)),
            forall|j: int| 0 <= j < i ==> seen_v(seen@)[j] != x,
        decreases seen@.len() - i,
    {
        let p = &seen[i];
        if crate::text::str_eq(p.0.slug.as_str(), from.slug.as_str()) && crate::text::str_eq(p.0.port.as_str(), from.port.as_str())
            && crate::text::str_eq(p.1.slug.as_str(), to.slug.as_str()) && crate::text::str_eq(p.1.port.as_str(), to.port.as_str()) {
            proof {
                assert(seen_v(seen@)[i as int] == x);
            }
            return true;
        }
        i = i + 1;
    }
    false
}

fn wire_items_exec(
    objs: &Vec<ObjectSummary>,
    els: &Vec<&Element>,
    midx: &Vec<usize>,
    touched: &Vec<(String, String, String, String)>,
    slug_of: &Vec<(String, String)>,
    out: &mut Vec<Item>,
)
    requires
        objs@.len() == els@.len(),
        forall|k: int| 0 <= k < midx@.len() ==> #[trigger] midx@[k] < objs@.len(),
        forall|q: int| 0 <= q < touched@.len() ==> lookup(pairs_v(slug_of@), (#[trigger] touched@[q]).0@) is Some
            && lookup(pairs_v(slug_of@), touched@[q].2@) is Some,
    ensures
        items_v(final(out)@) == items_v(old(out)@) + wire_items(
            quads_v(touched@),
            uuids(pick(objects_view(objs@, els@), midx@)),
            pairs_v(slug_of@),
        ).0,
{
    let ghost T = quads_v(touched@);
    let ghost MU = uuids(pick(objects_view(objs@, els@), midx@));
    let ghost S = pairs_v(slug_of@);
    let ghost o0 = items_v(out@);
    let mut seen: Vec<(PortRef, PortRef)> = Vec::new();
    let mut i: usize = 0;
    proof {
        assert(T.take(0) =~= Seq::<(Seq<char>, Seq<char>, Seq<char>, Seq<char>)>::empty());
        assert(o0 + wire_items(T.take(0), MU, S).0 =~= o0);
        assert(seen_v(seen@) =~= wire_items(T.take(0), MU, S).1);
    }
    while i < touched.len()
        invariant
            0 <= i <= touched@.len(),
            objs@.len() == els@.len(),
            forall|k: int| 0 <= k < midx@.len() ==> #[trigger] midx@[k] < objs@.len(),
            forall|q: int| 0 <= q < touched@.len() ==> lookup(pairs_v(slug_of@), (#[trigger] touched@[q]).0@) is Some
                && lookup(pairs_v(slug_of@), touched@[q].2@) is Some,
            T == quads_v(touched@),
            MU == uuids(pick(objects_view(objs@, els@), midx@)),
            S == pairs_v(slug_of@),
            items_v(out@) == o0 + wire_items(T.take(i as int), MU, S).0,
            seen_v(seen@) == wire_items(T.take(i as int), MU, S).1,
        decreases touched@.len() - i,
    {
        proof {
            assert(T.take(i + 1).drop_last() =~= T.take(i as int));
            assert(T.take(i + 1).last() == T[i as int]);
        }
        let q = &touched[i];
        if !is_managed_exec(objs, els, midx, q.2.as_str()) {
            let from = PortRef { slug: lookup_slug(slug_of, q.0.as_str()).unwrap().clone(), port: q.1.clone() };
            let to = PortRef { slug: lookup_slug(slug_of, q.2.as_str()).unwrap().clone(), port: q.3.clone() };
            if !seen_contains(&seen, &from, &to) {
                let rec = (crate::ir::copy::copy_ref(&from), crate::ir::copy::copy_ref(&to));
                proof {
                    assert(seen_v(seen@.push(rec)) =~= seen_v(seen@).push(
                        (crate::ir::ast::port_view(from), crate::ir::ast::port_view(to)),
                    ));
                }
                seen.push(rec);
                let it = Item::Wire(crate::ir::ast::WireDecl { to, from, comment: None });
                proof {
                    crate::ir::copy::lemma_items_v_push(out@, it);
                }
                out.push(it);
            }
        }
        i = i + 1;
    }
    proof {
        assert(T.take(T.len() as int) =~= T);
    }
}

fn raw_count_exec(objs: &Vec<ObjectSummary>, els: &Vec<&Element>, slug_of: &Vec<(String, String)>) -> (n: usize)
    requires
        objs@.len() == els@.len(),
    ensures
        n == raw_count(objects_view(objs@, els@), pairs_v(slug_of@)),
{
    let ghost O = objects_view(objs@, els@);
    let mut n: usize = 0;
    let mut i: usize = 0;
    while i < objs.len()
        invariant
            0 <= i <= objs@.len(),
            n <= i,
            objs@.len() == els@.len(),
            O == objects_view(objs@, els@),
            n == raw_count(O.take(i as int), pairs_v(slug_of@)),
        decreases objs@.len() - i,
    {
        proof {
            assert(O.take(i + 1).drop_last() =~= O.take(i as int));
            assert(O.take(i + 1).last() == O[i as int]);
        }
        let o = &objs[i];
        if !crate::text::str_eq(o.block_type.as_str(), "Document") && !crate::text::str_eq(o.block_type.as_str(), "Page")
            && lookup_slug(slug_of, o.uuid.as_str()).is_none() {
            n = n + 1;
        }
        i = i + 1;
    }
    proof {
        assert(O.take(O.len() as int) =~= O);
    }
    n
}

/// The lift of an existing config into an IR module: objects of a managed
/// type become `slug = Type(…)` declarations with their `Def=` values and
/// incoming wires as bindings; objects wired to them become `extern`s
/// (matched by the most stable unique spec); wires landing on extern ports
/// become `<-` statements. The module is validated before it is returned.
pub fn decompile(doc: &crate::doc::LoxoneDoc, opts: &DecompileOptions) -> (r: crate::error::Result<
    (crate::ir::ast::Module, DecompileReport),
>)
    ensures
        ({
            let objs = crate::doc::objects_in(doc@.root, seq![]);
            let lift = lift_of(objs, strs_v(opts.managed_types@));
            match r {
                Ok((m, rep)) => items_v(m.items@) == lift.items && crate::ir::semantics::validate_spec(m.items@) is Ok
                    && rep.managed == lift.managed.len() && rep.externs == lift.slugs.externs.len()
                    && rep.raw_objects == raw_count(objs, lift.slugs.slug_of),
                Err(e) => exists|xs: Seq<Item>|
                    items_v(xs) == lift.items && #[trigger] crate::ir::semantics::reports(
                        Err::<(), crate::error::Error>(e),
                        crate::ir::semantics::validate_spec(xs),
                    ),
            }
        }),
{
    let (objs, els) = doc.object_entries();
    let idx = doc.index();
    let wires = doc.wires();
    let ghost O = objects_view(objs@, els@);
    let ghost T0 = strs_v(opts.managed_types@);
    let midx = managed_indices(&objs, &els, &opts.managed_types);
    let ghost M = pick(O, midx@);
    let ghost MU = uuids(M);
    let ghost PO = owner_assignments(O);
    let touched = touched_exec(&wires, &idx, &objs, &els, &midx);
    let (mut used, mut slug_of) = managed_slugs_exec(&objs, &els, &midx);
    let mut externs: Vec<String> = Vec::new();
    let ghost s1 = slugs_v(used, slug_of@, externs@);
    proof {
        assert(strs_v(externs@) =~= Seq::<Seq<char>>::empty());
        lemma_managed_slugs(M);
        assert(s1 == managed_slugs(M));
        assert forall|i: int| 0 <= i < MU.len() implies lookup(s1.slug_of, #[trigger] MU[i]) is Some by {
            assert(MU[i] == M[i].0.uuid);
        }
        assert(slugs_ok(s1, O, MU));
        lemma_touched_exist(O, wires@.map_values(|w: crate::doc::WireView| w@), MU);
        lemma_extern_slugs(quads_v(touched@), O, MU, s1);
    }
    extern_slugs_exec(&objs, &els, &midx, &touched, &mut used, &mut slug_of, &mut externs);
    let ghost s2 = slugs_v(used, slug_of@, externs@);
    proof {
        assert(s2 == extern_slugs(quads_v(touched@), O, MU, s1));
        assert forall|i: int| 0 <= i < midx@.len() implies lookup(pairs_v(slug_of@), objs@[(#[trigger] midx@[i]) as int].uuid@) is Some by {
            assert(MU[i] == objs@[midx@[i] as int].uuid@);
        }
        assert forall|i: int| 0 <= i < externs@.len() implies lookup(pairs_v(slug_of@), (#[trigger] externs@[i])@) is Some
            && first_obj(objects_view(objs@, els@), externs@[i]@) is Some by {
            assert(s2.externs[i] == externs@[i]@);
        }
        assert forall|q: int| 0 <= q < touched@.len() implies lookup(pairs_v(slug_of@), (#[trigger] touched@[q]).0@) is Some
            && lookup(pairs_v(slug_of@), touched@[q].2@) is Some by {
            assert(quads_v(touched@)[q].0 == touched@[q].0@);
            assert(quads_v(touched@)[q].2 == touched@[q].2@);
        }
    }
    let mut items: Vec<Item> = Vec::new();
    proof {
        assert(items_v(items@) =~= Seq::<SItem>::empty());
    }
    extern_items_exec(&objs, &els, &externs, &slug_of, &mut items);
    block_items_exec(&objs, &els, &midx, &idx, &slug_of, &mut items);
    wire_items_exec(&objs, &els, &midx, &touched, &slug_of, &mut items);
    let module = crate::ir::ast::Module { items };
    let ghost lift = lift_of(O, T0);
    proof {
        assert(items_v(module.items@) =~= lift.items);
    }
    match module.validate() {
        Ok(()) => {},
        Err(e) => {
            proof {
                assert(items_v(module.items@) == lift.items);
                assert(crate::ir::semantics::reports(
                    Err::<(), crate::error::Error>(e),
                    crate::ir::semantics::validate_spec(module.items@),
                ));
            }
            return Err(e);
        },
    }
    let raw = raw_count_exec(&objs, &els, &slug_of);
    let report = DecompileReport { managed: midx.len(), externs: externs.len(), raw_objects: raw };
    proof {
        assert(M.len() == midx@.len());
        assert(s2.externs.len() == externs@.len());
    }
    Ok((module, report))
}

} // verus!
