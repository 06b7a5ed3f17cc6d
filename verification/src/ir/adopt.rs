//! Adoption safety: whether the compiler's rebuild of an existing block
//! would be faithful.
//!
//! The compiler rebuilds managed blocks from scratch, so anything on the
//! original element that the rebuild does not reproduce would be silently
//! lost on the first compile. [`verify_rebuildable`] whitelists exactly what
//! the rebuild emits (plus known-harmless normalizations: `WF=` is rewritten
//! to the value Loxone Config itself normalizes to on save, `LtE=` and the
//! block color are display state). A block that fails stays unmanaged, with
//! the reason reported.
use crate::connectors::{attr_params, attr_params_spec, builtin, builtin_spec, specs_view, PortDir};
use crate::doc::{ports, ports_spec, ObjectSummary, PortView, SPort};
use crate::entities::unescape_text;
use crate::ir::validate::{join, spec_keys};
use crate::lock::Layout;
use crate::strmap::{map_insert, map_keys, StrMap};
use crate::text::{
    all_digits, all_ws, chars_of, chars_range, dec, digits_value, parse_unsigned, parse_unsigned_exec,
    push_dec, push_str, range_all_ws, str_eq, string_of,
};
use crate::xml::{attr_value, Element, Node, SAttr, SElement, SNode};
use vstd::prelude::*;

verus! {

// ---------------------------------------------------------------------------
// Signed integers, as `str::parse::<i64>` reads them
// ---------------------------------------------------------------------------

/// What `str::parse::<i64>` returns: one optional sign, then decimal
/// digits, in range.
pub open spec fn parse_i64_spec(s: Seq<char>) -> Option<int> {
    if s.len() == 0 || ((s[0] == '-' || s[0] == '+') && s.len() == 1) {
        None
    } else {
        let d = if s[0] == '-' || s[0] == '+' {
            s.drop_first()
        } else {
            s
        };
        if !all_digits(d, false) {
            None
        } else if s[0] == '-' {
            if digits_value(d, false) <= 0x8000_0000_0000_0000 {
                Some(-digits_value(d, false))
            } else {
                None
            }
        } else if digits_value(d, false) <= 0x7fff_ffff_ffff_ffff {
            Some(digits_value(d, false))
        } else {
            None
        }
    }
}

/// Parse a decimal `i64` (Rust's `str::parse`).
pub fn parse_i64(s: &str) -> (r: Option<i64>)
    ensures
        match r {
            Some(v) => parse_i64_spec(s@) == Some(v as int),
            None => parse_i64_spec(s@) is None,
        },
{
    let v = chars_of(s);
    if v.len() == 0 {
        return None;
    }
    let signed = v[0] == '-' || v[0] == '+';
    if signed && v.len() == 1 {
        return None;
    }
    let start: usize = if signed {
        1
    } else {
        0
    };
    let d = chars_range(&v, start, v.len());
    proof {
        if signed {
            assert(d@ =~= s@.drop_first());
        } else {
            assert(d@ =~= s@);
        }
    }
    if d[0] == '+' {
        proof {
            assert(!crate::text::is_digit(d@[0]));
        }
        return None;
    }
    proof {
        assert(crate::text::unsigned_digits(d@) == d@);
    }
    if v[0] == '-' {
        match parse_unsigned_exec(&d, false, 0x8000_0000_0000_0000) {
            Some(n) => {
                if n == 0x8000_0000_0000_0000 {
                    Some(i64::MIN)
                } else {
                    let m = n as i64;
                    Some(-m)
                }
            },
            None => None,
        }
    } else {
        match parse_unsigned_exec(&d, false, 0x7fff_ffff_ffff_ffff) {
            Some(n) => Some(n as i64),
            None => None,
        }
    }
}

/// The block's position, when all four coordinates are numeric.
pub open spec fn layout_spec(el: SElement) -> Option<(int, int, int, int)> {
    let c = |n: Seq<char>|
        match attr_value(el, n) {
            Some(v) => parse_i64_spec(v),
            None => None,
        };
    if c("Px"@) is Some && c("Py"@) is Some && c("Px2"@) is Some && c("Py2"@) is Some {
        Some((c("Px"@)->0, c("Py"@)->0, c("Px2"@)->0, c("Py2"@)->0))
    } else {
        None
    }
}

fn coord(el: &Element, name: &str) -> (r: Option<i64>)
    ensures
        match r {
            Some(v) => attr_value(el@, name@) matches Some(s) && parse_i64_spec(s) == Some(v as int),
            None => match attr_value(el@, name@) {
                Some(s) => parse_i64_spec(s) is None,
                None => true,
            },
        },
{
    match el.attr(name) {
        Some(v) => parse_i64(v),
        None => None,
    }
}

/// The `Px`/`Py`/`Px2`/`Py2` layout of a block element.
pub fn layout_of(el: &Element) -> (r: Option<Layout>)
    ensures
        match r {
            Some(l) => layout_spec(el@) == Some((l.px as int, l.py as int, l.px2 as int, l.py2 as int)),
            None => layout_spec(el@) is None,
        },
{
    let px = match coord(el, "Px") {
        Some(v) => v,
        None => return None,
    };
    let py = match coord(el, "Py") {
        Some(v) => v,
        None => return None,
    };
    let px2 = match coord(el, "Px2") {
        Some(v) => v,
        None => return None,
    };
    let py2 = match coord(el, "Py2") {
        Some(v) => v,
        None => return None,
    };
    Some(Layout { px, py, px2, py2 })
}

// ---------------------------------------------------------------------------
// What the rebuild reproduces
// ---------------------------------------------------------------------------

/// Element attributes the compiler's rebuild emits (or knowingly
/// normalizes: `WF` is rewritten to the save-normalized value, `LtE` and
/// `Cl` are display state).
pub open spec fn known_attr(n: Seq<char>) -> bool {
    ||| n == "Type"@
    ||| n == "V"@
    ||| n == "U"@
    ||| n == "Title"@
    ||| n == "Px"@
    ||| n == "Py"@
    ||| n == "Px2"@
    ||| n == "Py2"@
    ||| n == "Cl"@
    ||| n == "Nio"@
    ||| n == "WF"@
    ||| n == "LtE"@
}

/// An element attribute the rebuild of a `ty` block reproduces: a known
/// one, an attribute parameter of the type, or the `Valid` flag that
/// travels with attribute parameters.
pub open spec fn rebuild_knows(n: Seq<char>, ty: Seq<char>) -> bool {
    known_attr(n) || attr_params_spec(ty).contains(n) || (n == "Valid"@ && attr_params_spec(ty).len() > 0)
}

pub open spec fn or_empty(v: Option<Seq<char>>) -> Seq<char> {
    match v {
        Some(s) => s,
        None => seq![],
    }
}

/// The first element attribute the rebuild would lose.
pub open spec fn attr_refusal(attrs: Seq<SAttr>, ty: Seq<char>) -> Option<Seq<char>>
    decreases attrs.len(),
{
    if attrs.len() == 0 {
        None
    } else if !rebuild_knows(attrs[0].name, ty) {
        Some(
            "attribute `"@ + attrs[0].name + "=\""@ + attrs[0].value
                + "\"` is not understood by the rebuild and would be lost"@,
        )
    } else {
        attr_refusal(attrs.drop_first(), ty)
    }
}

pub open spec fn co_attr_known(n: Seq<char>) -> bool {
    n == "K"@ || n == "Nc"@ || n == "Def"@ || n == "U"@
}

pub open spec fn inv_hint(n: Seq<char>) -> Seq<char> {
    if n == "Inv"@ {
        " (the GUI's input-inversion flag; invert via a Not block in Loxone Config first)"@
    } else {
        seq![]
    }
}

/// The first connector attribute the rebuild would lose.
pub open spec fn co_attr_refusal(attrs: Seq<SAttr>, key: Seq<char>) -> Option<Seq<char>>
    decreases attrs.len(),
{
    if attrs.len() == 0 {
        None
    } else if !co_attr_known(attrs[0].name) {
        Some("connector `"@ + key + "`: attribute `"@ + attrs[0].name + "` is not understood"@ + inv_hint(attrs[0].name))
    } else {
        co_attr_refusal(attrs.drop_first(), key)
    }
}

/// The name of the first wire attribute other than `Input`.
pub open spec fn first_foreign_wire_attr(attrs: Seq<SAttr>) -> Option<Seq<char>>
    decreases attrs.len(),
{
    if attrs.len() == 0 {
        None
    } else if attrs[0].name != "Input"@ {
        Some(attrs[0].name)
    } else {
        first_foreign_wire_attr(attrs.drop_first())
    }
}

/// Why one child of a connector cannot be rebuilt, if it cannot.
pub open spec fn wire_child_refusal(n: SNode, key: Seq<char>) -> Option<Seq<char>> {
    match n {
        SNode::Element(i) => if i.name == "In"@ {
            match first_foreign_wire_attr(i.attrs) {
                Some(a) => Some("connector `"@ + key + "`: wire attribute `"@ + a + "` is not understood"@),
                None => None,
            }
        } else {
            Some("connector `"@ + key + "`: child element <"@ + i.name + "> is not understood"@)
        },
        SNode::Text(t) => if all_ws(t) {
            None
        } else {
            Some("connector `"@ + key + "`: unexpected text content"@)
        },
    }
}

pub open spec fn wires_refusal(ch: Seq<SNode>, key: Seq<char>) -> Option<Seq<char>>
    decreases ch.len(),
{
    if ch.len() == 0 {
        None
    } else {
        match wire_child_refusal(ch[0], key) {
            Some(m) => Some(m),
            None => wires_refusal(ch.drop_first(), key),
        }
    }
}

pub open spec fn is_in(n: SNode) -> bool {
    n matches SNode::Element(i) && i.name == "In"@
}

/// The number of `<In>` wires among a connector's children.
pub open spec fn in_count(ch: Seq<SNode>) -> nat
    decreases ch.len(),
{
    if ch.len() == 0 {
        0
    } else {
        in_count(ch.drop_first()) + if is_in(ch[0]) {
            1nat
        } else {
            0nat
        }
    }
}

/// The decoded `K=` of a connector (empty when absent).
pub open spec fn co_key(co: SElement) -> Seq<char> {
    match attr_value(co, "K"@) {
        Some(v) => unescape_text(v),
        None => seq![],
    }
}

/// `Nc=` as a count: absent reads as 0, an unreadable value as the
/// largest count.
pub open spec fn nc_value(co: SElement) -> int {
    let text = match attr_value(co, "Nc"@) {
        Some(v) => v,
        None => "0"@,
    };
    match parse_unsigned(text, false, 0xffff_ffff_ffff_ffff) {
        Some(v) => v,
        None => 0xffff_ffff_ffff_ffff,
    }
}

/// Why a connector cannot be rebuilt, if it cannot.
pub open spec fn co_refusal(co: SElement) -> Option<Seq<char>> {
    let key = co_key(co);
    match co_attr_refusal(co.attrs, key) {
        Some(m) => Some(m),
        None => match wires_refusal(co.children, key) {
            Some(m) => Some(m),
            None => if nc_value(co) != in_count(co.children) {
                Some(
                    "connector `"@ + key + "`: Nc=\""@ + or_empty(attr_value(co, "Nc"@)) + "\" does not match its "@
                        + dec(in_count(co.children)) + " wire(s)"@,
                )
            } else {
                None
            },
        },
    }
}

/// Why one child of a block cannot be rebuilt, if it cannot.
pub open spec fn child_refusal(n: SNode) -> Option<Seq<char>> {
    match n {
        SNode::Element(c) => if c.name == "Co"@ {
            co_refusal(c)
        } else {
            Some("child element <"@ + c.name + "> is not understood by the rebuild"@)
        },
        SNode::Text(t) => if all_ws(t) {
            None
        } else {
            Some("unexpected text content"@)
        },
    }
}

pub open spec fn children_refusal(ch: Seq<SNode>) -> Option<Seq<char>>
    decreases ch.len(),
{
    if ch.len() == 0 {
        None
    } else {
        match child_refusal(ch[0]) {
            Some(m) => Some(m),
            None => children_refusal(ch.drop_first()),
        }
    }
}

/// Every key of `a` is in `b` and every key of `b` is in `a`.
pub open spec fn same_keys(a: Seq<Seq<char>>, b: Seq<Seq<char>>) -> bool {
    (forall|i: int| 0 <= i < a.len() ==> b.contains(#[trigger] a[i])) && (forall|j: int|
        0 <= j < b.len() ==> a.contains(#[trigger] b[j]))
}

/// Keys as a sorted map holds them: in string order, each once.
pub open spec fn key_set(keys: Seq<Seq<char>>) -> Seq<(Seq<char>, ())>
    decreases keys.len(),
{
    if keys.len() == 0 {
        seq![]
    } else {
        map_insert(key_set(keys.drop_last()), keys.last(), ())
    }
}

/// Why the rebuild of `el` as a `ty` block (a builtin type) would not be
/// faithful, or `None` when it would be.
pub open spec fn rebuild_refusal(el: SElement, ty: Seq<char>) -> Option<Seq<char>> {
    match attr_refusal(el.attrs, ty) {
        Some(m) => Some(m),
        None => if attr_value(el, "V"@) != Some("175"@) {
            Some("block version V=\""@ + or_empty(attr_value(el, "V"@)) + "\" differs from the verified \"175\""@)
        } else if layout_spec(el) is None {
            Some("its position (Px/Py/Px2/Py2) is not numeric"@)
        } else {
            match children_refusal(el.children) {
                Some(m) => Some(m),
                None => {
                    let specs = builtin_spec(ty)->0;
                    let found = ports_spec(el).map_values(|p: SPort| p.key);
                    if !same_keys(found, spec_keys(specs)) {
                        Some(
                            "its connectors ["@ + join(map_keys(key_set(found))) + "] differ from the verified ["@
                                + join(spec_keys(specs)) + "]"@,
                        )
                    } else if attr_value(el, "Nio"@) != Some(dec(specs.len())) {
                        Some(
                            "Nio=\""@ + or_empty(attr_value(el, "Nio"@)) + "\" does not match the "@ + dec(specs.len())
                                + " verified connectors"@,
                        )
                    } else {
                        None
                    }
                },
            }
        },
    }
}

// ---------------------------------------------------------------------------
// The checks
// ---------------------------------------------------------------------------

fn is_known_attr(n: &str) -> (r: bool)
    ensures
        r == known_attr(n@),
{
    str_eq(n, "Type") || str_eq(n, "V") || str_eq(n, "U") || str_eq(n, "Title") || str_eq(n, "Px")
        || str_eq(n, "Py") || str_eq(n, "Px2") || str_eq(n, "Py2") || str_eq(n, "Cl") || str_eq(n, "Nio")
        || str_eq(n, "WF") || str_eq(n, "LtE")
}

fn contains_name(v: &Vec<&'static str>, n: &str) -> (r: bool)
    ensures
        r == v@.map_values(|s: &str| s@).contains(n@),
{
    let ghost vs = v@.map_values(|s: &str| s@);
    let mut i: usize = 0;
    while i < v.len()
        invariant
            0 <= i <= v@.len(),
            vs == v@.map_values(|s: &str| s@),
            forall|j: int| 0 <= j < i ==> vs[j] != n@,
        decreases v@.len() - i,
    {
        if str_eq(v[i], n) {
            assert(vs[i as int] == n@);
            return true;
        }
        i = i + 1;
    }
    false
}

fn attr_refusal_exec(el: &Element, ty: &str) -> (r: Option<String>)
    ensures
        match r {
            Some(m) => attr_refusal(el@.attrs, ty@) == Some(m@),
            None => attr_refusal(el@.attrs, ty@) is None,
        },
{
    let params = attr_params(ty);
    let ghost A = el@.attrs;
    let mut i: usize = 0;
    proof {
        assert(A.skip(0) =~= A);
    }
    while i < el.attrs.len()
        invariant
            0 <= i <= el.attrs@.len(),
            A == el@.attrs,
            A.len() == el.attrs@.len(),
            params@.map_values(|s: &str| s@) == attr_params_spec(ty@),
            attr_refusal(A, ty@) == attr_refusal(A.skip(i as int), ty@),
        decreases el.attrs@.len() - i,
    {
        let a = &el.attrs[i];
        proof {
            assert(A[i as int] == a@);
            assert(A.skip(i as int)[0] == a@);
            assert(A.skip(i as int).drop_first() =~= A.skip(i + 1));
        }
        let n = a.name.as_str();
        let known = is_known_attr(n) || contains_name(&params, n) || (str_eq(n, "Valid") && params.len() > 0);
        if !known {
            let mut m = string_of("attribute `");
            push_str(&mut m, n);
            push_str(&mut m, "=\"");
            push_str(&mut m, a.value.as_str());
            push_str(&mut m, "\"` is not understood by the rebuild and would be lost");
            return Some(m);
        }
        i = i + 1;
    }
    proof {
        assert(A.skip(i as int) =~= Seq::<SAttr>::empty());
    }
    None
}

fn is_blank(t: &String) -> (r: bool)
    ensures
        r == all_ws(t@),
{
    let v = chars_of(t.as_str());
    let r = range_all_ws(&v, 0, v.len());
    assert(v@.subrange(0, v@.len() as int) =~= v@);
    r
}

fn first_foreign_wire_attr_exec(i: &Element) -> (r: Option<&str>)
    ensures
        match r {
            Some(a) => first_foreign_wire_attr(i@.attrs) == Some(a@),
            None => first_foreign_wire_attr(i@.attrs) is None,
        },
{
    let ghost A = i@.attrs;
    let mut k: usize = 0;
    proof {
        assert(A.skip(0) =~= A);
    }
    while k < i.attrs.len()
        invariant
            0 <= k <= i.attrs@.len(),
            A == i@.attrs,
            A.len() == i.attrs@.len(),
            first_foreign_wire_attr(A) == first_foreign_wire_attr(A.skip(k as int)),
        decreases i.attrs@.len() - k,
    {
        proof {
            assert(A[k as int] == i.attrs@[k as int]@);
            assert(A.skip(k as int)[0] == A[k as int]);
            assert(A.skip(k as int).drop_first() =~= A.skip(k + 1));
        }
        if !str_eq(i.attrs[k].name.as_str(), "Input") {
            return Some(i.attrs[k].name.as_str());
        }
        k = k + 1;
    }
    proof {
        assert(A.skip(k as int) =~= Seq::<SAttr>::empty());
    }
    None
}

fn connector_msg(key: &String, tail: &str) -> (m: String)
    ensures
        m@ == "connector `"@ + key@ + tail@,
{
    let mut m = string_of("connector `");
    push_str(&mut m, key.as_str());
    push_str(&mut m, tail);
    m
}

fn co_refusal_exec(co: &Element) -> (r: Option<String>)
    ensures
        match r {
            Some(m) => co_refusal(co@) == Some(m@),
            None => co_refusal(co@) is None,
        },
{
    let key = match co.attr_decoded("K") {
        Some(k) => k,
        None => String::new(),
    };
    assert(key@ == co_key(co@));
    // Connector attributes.
    let ghost A = co@.attrs;
    let mut k: usize = 0;
    proof {
        assert(A.skip(0) =~= A);
    }
    while k < co.attrs.len()
        invariant
            0 <= k <= co.attrs@.len(),
            A == co@.attrs,
            A.len() == co.attrs@.len(),
            key@ == co_key(co@),
            co_attr_refusal(A, key@) == co_attr_refusal(A.skip(k as int), key@),
        decreases co.attrs@.len() - k,
    {
        let a = &co.attrs[k];
        proof {
            assert(A[k as int] == a@);
            assert(A.skip(k as int)[0] == a@);
            assert(A.skip(k as int).drop_first() =~= A.skip(k + 1));
        }
        let n = a.name.as_str();
        if !(str_eq(n, "K") || str_eq(n, "Nc") || str_eq(n, "Def") || str_eq(n, "U")) {
            let mut m = connector_msg(&key, "`: attribute `");
            push_str(&mut m, n);
            push_str(&mut m, "` is not understood");
            if str_eq(n, "Inv") {
                push_str(&mut m, " (the GUI's input-inversion flag; invert via a Not block in Loxone Config first)");
            } else {
                proof {
                    assert(m@ + seq![] =~= m@);
                }
            }
            return Some(m);
        }
        k = k + 1;
    }
    proof {
        assert(A.skip(k as int) =~= Seq::<SAttr>::empty());
    }
    // Wires.
    let ghost C = co@.children;
    let mut count: u64 = 0;
    let mut j: usize = 0;
    proof {
        assert(C.skip(0) =~= C);
    }
    while j < co.children.len()
        invariant
            0 <= j <= co.children@.len(),
            C == co@.children,
            C.len() == co.children@.len(),
            key@ == co_key(co@),
            co_attr_refusal(co@.attrs, key@) is None,
            count <= j,
            wires_refusal(C, key@) == wires_refusal(C.skip(j as int), key@),
            in_count(C) == count + in_count(C.skip(j as int)),
        decreases co.children@.len() - j,
    {
        proof {
            assert(C[j as int] == co.children@[j as int]@);
            assert(C.skip(j as int)[0] == C[j as int]);
            assert(C.skip(j as int).drop_first() =~= C.skip(j + 1));
        }
        match &co.children[j] {
            Node::Element(i) => {
                if str_eq(i.name.as_str(), "In") {
                    match first_foreign_wire_attr_exec(i) {
                        Some(a) => {
                            let mut m = connector_msg(&key, "`: wire attribute `");
                            push_str(&mut m, a);
                            push_str(&mut m, "` is not understood");
                            return Some(m);
                        },
                        None => {},
                    }
                    count = count + 1;
                } else {
                    let mut m = connector_msg(&key, "`: child element <");
                    push_str(&mut m, i.name.as_str());
                    push_str(&mut m, "> is not understood");
                    return Some(m);
                }
            },
            Node::Text(t) => {
                if !is_blank(t) {
                    return Some(connector_msg(&key, "`: unexpected text content"));
                }
            },
        }
        j = j + 1;
    }
    proof {
        assert(C.skip(j as int) =~= Seq::<SNode>::empty());
    }
    // The wire count.
    let nc_text = match co.attr("Nc") {
        Some(v) => v,
        None => "0",
    };
    let nc = match parse_unsigned_exec(&chars_of(nc_text), false, 0xffff_ffff_ffff_ffff) {
        Some(v) => v,
        None => 0xffff_ffff_ffff_ffff,
    };
    if nc != count {
        let mut m = connector_msg(&key, "`: Nc=\"");
        match co.attr("Nc") {
            Some(v) => push_str(&mut m, v),
            None => {},
        }
        push_str(&mut m, "\" does not match its ");
        push_dec(&mut m, count);
        push_str(&mut m, " wire(s)");
        proof {
            let e = or_empty(attr_value(co@, "Nc"@));
            assert(m@ =~= "connector `"@ + key@ + "`: Nc=\""@ + e + "\" does not match its "@ + dec(
                count as nat,
            ) + " wire(s)"@);
        }
        return Some(m);
    }
    None
}

fn children_refusal_exec(el: &Element) -> (r: Option<String>)
    ensures
        match r {
            Some(m) => children_refusal(el@.children) == Some(m@),
            None => children_refusal(el@.children) is None,
        },
{
    let ghost C = el@.children;
    let mut j: usize = 0;
    proof {
        assert(C.skip(0) =~= C);
    }
    while j < el.children.len()
        invariant
            0 <= j <= el.children@.len(),
            C == el@.children,
            C.len() == el.children@.len(),
            children_refusal(C) == children_refusal(C.skip(j as int)),
        decreases el.children@.len() - j,
    {
        proof {
            assert(C[j as int] == el.children@[j as int]@);
            assert(C.skip(j as int)[0] == C[j as int]);
            assert(C.skip(j as int).drop_first() =~= C.skip(j + 1));
        }
        match &el.children[j] {
            Node::Element(c) => {
                if str_eq(c.name.as_str(), "Co") {
                    match co_refusal_exec(c) {
                        Some(m) => return Some(m),
                        None => {},
                    }
                } else {
                    let mut m = string_of("child element <");
                    push_str(&mut m, c.name.as_str());
                    push_str(&mut m, "> is not understood by the rebuild");
                    return Some(m);
                }
            },
            Node::Text(t) => {
                if !is_blank(t) {
                    return Some(string_of("unexpected text content"));
                }
            },
        }
        j = j + 1;
    }
    proof {
        assert(C.skip(j as int) =~= Seq::<SNode>::empty());
    }
    None
}

fn spec_has(specs: &Vec<crate::connectors::PortSpec>, k: &str) -> (r: bool)
    ensures
        r == spec_keys(specs_view(specs@)).contains(k@),
{
    let ghost ks = spec_keys(specs_view(specs@));
    let mut i: usize = 0;
    while i < specs.len()
        invariant
            0 <= i <= specs@.len(),
            ks == spec_keys(specs_view(specs@)),
            ks.len() == specs@.len(),
            forall|j: int| 0 <= j < i ==> ks[j] != k@,
        decreases specs@.len() - i,
    {
        assert(ks[i as int] == specs@[i as int].key@);
        if str_eq(specs[i].key, k) {
            return true;
        }
        i = i + 1;
    }
    false
}

fn ports_have(ps: &Vec<PortView>, k: &str) -> (r: bool)
    ensures
        r == ps@.map_values(|p: PortView| p@.key).contains(k@),
{
    let ghost ks = ps@.map_values(|p: PortView| p@.key);
    let mut i: usize = 0;
    while i < ps.len()
        invariant
            0 <= i <= ps@.len(),
            ks == ps@.map_values(|p: PortView| p@.key),
            forall|j: int| 0 <= j < i ==> ks[j] != k@,
        decreases ps@.len() - i,
    {
        assert(ks[i as int] == ps@[i as int].key@);
        if str_eq(ps[i].key.as_str(), k) {
            return true;
        }
        i = i + 1;
    }
    false
}

/// The connector keys in string order, each once, joined with `, `.
fn sorted_keys_joined(ps: &Vec<PortView>) -> (r: String)
    ensures
        r@ == join(map_keys(key_set(ps@.map_values(|p: PortView| p@.key)))),
{
    let ghost ks = ps@.map_values(|p: PortView| p@.key);
    let mut set: StrMap<()> = StrMap::new();
    let mut i: usize = 0;
    while i < ps.len()
        invariant
            0 <= i <= ps@.len(),
            ks == ps@.map_values(|p: PortView| p@.key),
            set@ == key_set(ks.take(i as int)),
        decreases ps@.len() - i,
    {
        proof {
            assert(ks.take(i + 1).drop_last() =~= ks.take(i as int));
            assert(ks.take(i + 1).last() == ps@[i as int].key@);
        }
        set.insert(string_of(ps[i].key.as_str()), ());
        i = i + 1;
    }
    proof {
        assert(ks.take(ks.len() as int) =~= ks);
    }
    let ghost names = map_keys(set@);
    let mut out = String::new();
    let mut k: usize = 0;
    while k < set.len()
        invariant
            0 <= k <= set@.len(),
            names == map_keys(set@),
            names.len() == set@.len(),
            out@ == join(names.take(k as int)),
        decreases set@.len() - k,
    {
        let name = set.key_at(k);
        proof {
            assert(names[k as int] == name@);
            let t = names.take(k + 1);
            if k == 0 {
                assert(t.len() == 1 && t[0] == name@);
            } else {
                assert(t.drop_last() =~= names.take(k as int));
                assert(t.last() == name@);
            }
        }
        if k > 0 {
            push_str(&mut out, ", ");
        }
        push_str(&mut out, name.as_str());
        proof {
            if k == 0 {
                assert(out@ =~= names.take(1)[0]);
            }
        }
        k = k + 1;
    }
    proof {
        assert(names.take(names.len() as int) =~= names);
    }
    out
}

/// The table's keys in connector order, joined with `, `.
fn spec_keys_joined(specs: &Vec<crate::connectors::PortSpec>) -> (r: String)
    ensures
        r@ == join(spec_keys(specs_view(specs@))),
{
    let ghost ks = spec_keys(specs_view(specs@));
    let mut out = String::new();
    let mut k: usize = 0;
    while k < specs.len()
        invariant
            0 <= k <= specs@.len(),
            ks == spec_keys(specs_view(specs@)),
            ks.len() == specs@.len(),
            out@ == join(ks.take(k as int)),
        decreases specs@.len() - k,
    {
        proof {
            assert(ks[k as int] == specs@[k as int].key@);
            let t = ks.take(k + 1);
            if k > 0 {
                assert(t.drop_last() =~= ks.take(k as int));
            }
        }
        if k > 0 {
            push_str(&mut out, ", ");
        }
        push_str(&mut out, specs[k].key);
        proof {
            if k == 0 {
                assert(out@ =~= ks.take(1)[0]);
            }
        }
        k = k + 1;
    }
    proof {
        assert(ks.take(ks.len() as int) =~= ks);
    }
    out
}

/// `Err(reason)` unless rebuilding this block from its lifted declaration
/// reproduces everything on the element (modulo the documented
/// normalizations). The object's type must be in the builtin table.
pub fn verify_rebuildable(el: &Element, o: &ObjectSummary) -> (r: Result<(), String>)
    requires
        builtin_spec(o.block_type@) is Some,
    ensures
        match r {
            Ok(()) => rebuild_refusal(el@, o.block_type@) is None,
            Err(m) => rebuild_refusal(el@, o.block_type@) == Some(m@),
        },
{
    let ty = o.block_type.as_str();
    match attr_refusal_exec(el, ty) {
        Some(m) => return Err(m),
        None => {},
    }
    let version_ok = match el.attr("V") {
        Some(v) => str_eq(v, "175"),
        None => false,
    };
    if !version_ok {
        let mut m = string_of("block version V=\"");
        match el.attr("V") {
            Some(v) => push_str(&mut m, v),
            None => {},
        }
        push_str(&mut m, "\" differs from the verified \"175\"");
        proof {
            assert(m@ =~= "block version V=\""@ + or_empty(attr_value(el@, "V"@)) + "\" differs from the verified \"175\""@);
        }
        return Err(m);
    }
    if layout_of(el).is_none() {
        return Err(string_of("its position (Px/Py/Px2/Py2) is not numeric"));
    }
    match children_refusal_exec(el) {
        Some(m) => return Err(m),
        None => {},
    }
    let specs = match builtin(ty) {
        Some(s) => s,
        None => {
            proof {
                assert(false);
            }
            return Ok(());
        },
    };
    let ghost sv = specs_view(specs@);
    let ps = ports(el);
    let ghost found = ports_spec(el@).map_values(|p: SPort| p.key);
    proof {
        assert(found =~= ps@.map_values(|p: PortView| p@.key));
    }
    let mut same = true;
    let mut i: usize = 0;
    while i < ps.len()
        invariant
            0 <= i <= ps@.len(),
            sv == specs_view(specs@),
            found == ps@.map_values(|p: PortView| p@.key),
            same == forall|j: int| 0 <= j < i ==> spec_keys(sv).contains(#[trigger] found[j]),
        decreases ps@.len() - i,
    {
        let present = spec_has(&specs, ps[i].key.as_str());
        proof {
            assert(found[i as int] == ps@[i as int].key@);
        }
        if !present {
            same = false;
        }
        i = i + 1;
    }
    let mut j: usize = 0;
    while j < specs.len()
        invariant
            0 <= j <= specs@.len(),
            sv == specs_view(specs@),
            spec_keys(sv).len() == specs@.len(),
            found == ps@.map_values(|p: PortView| p@.key),
            same == ((forall|x: int| 0 <= x < found.len() ==> spec_keys(sv).contains(#[trigger] found[x])) && forall|y: int|
                0 <= y < j ==> found.contains(#[trigger] spec_keys(sv)[y])),
        decreases specs@.len() - j,
    {
        let present = ports_have(&ps, specs[j].key);
        proof {
            assert(spec_keys(sv)[j as int] == specs@[j as int].key@);
        }
        if !present {
            same = false;
        }
        j = j + 1;
    }
    if !same {
        let mut m = string_of("its connectors [");
        let listed = sorted_keys_joined(&ps);
        push_str(&mut m, listed.as_str());
        push_str(&mut m, "] differ from the verified [");
        let verified = spec_keys_joined(&specs);
        push_str(&mut m, verified.as_str());
        push_str(&mut m, "]");
        return Err(m);
    }
    let n = crate::text::dec_string(specs.len() as u64);
    let nio_ok = match el.attr("Nio") {
        Some(v) => str_eq(v, n.as_str()),
        None => false,
    };
    if !nio_ok {
        let mut m = string_of("Nio=\"");
        match el.attr("Nio") {
            Some(v) => push_str(&mut m, v),
            None => {},
        }
        push_str(&mut m, "\" does not match the ");
        push_str(&mut m, n.as_str());
        push_str(&mut m, " verified connectors");
        proof {
            assert(m@ =~= "Nio=\""@ + or_empty(attr_value(el@, "Nio"@)) + "\" does not match the "@ + dec(sv.len())
                + " verified connectors"@);
        }
        return Err(m);
    }
    Ok(())
}

} // verus!
