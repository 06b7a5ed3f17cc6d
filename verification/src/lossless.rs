//! The lossless round trip: parsing what the writer emits gives the same
//! document back, for documents in Loxone's own layout (tab indentation by
//! depth, one line-ending convention, plain names and values).
use crate::text::{all_ascii_ws, all_ws, find_from, is_ws, lemma_find_first, starts_at};
use crate::xml::{
    crlf_of, doc_text, find_pair, nl_text, parse_doc, xml_parse, SDoc, attrs_text, children_text, close_tag, elem_text, is_name_stop, name_end, open_tag, parse_children,
    parse_element, parse_tag, skip_ws, tabs, with_attr, with_child, with_self_closing, SAttr, SElement,
    SNode,
};
use vstd::prelude::*;

verus! {

// ---------------------------------------------------------------------------
// The canonical layout
// ---------------------------------------------------------------------------

/// A tag or attribute name the parser reads back whole: no name-stop
/// characters, and not starting like a comment or a declaration.
pub open spec fn plain_name(n: Seq<char>) -> bool {
    &&& n.len() > 0
    &&& n[0] != '!'
    &&& n[0] != '?'
    &&& forall|i: int| 0 <= i < n.len() ==> !is_name_stop(#[trigger] n[i])
}

/// An attribute value without quotes or line feeds.
pub open spec fn plain_value(v: Seq<char>) -> bool {
    forall|i: int| 0 <= i < v.len() ==> #[trigger] v[i] != '"' && v[i] != '\n'
}

pub open spec fn plain_attrs(a: Seq<SAttr>) -> bool {
    forall|i: int| 0 <= i < a.len() ==> plain_name(#[trigger] a[i].name) && plain_value(a[i].value)
}

/// Inline text content: not blank, no `<`, no line feed.
pub open spec fn plain_text(t: Seq<char>) -> bool {
    &&& !all_ws(t)
    &&& forall|i: int| 0 <= i < t.len() ==> #[trigger] t[i] != '<' && t[i] != '\n'
}

/// An element in canonical form: plain names and values; either a single
/// inline text child or element children only; `/>` only when empty.
pub open spec fn canonical_element(e: SElement) -> bool
    decreases e, e.children.len() + 1,
{
    &&& plain_name(e.name)
    &&& plain_attrs(e.attrs)
    &&& (e.children.len() > 0 ==> !e.self_closing)
    &&& if e.children.len() == 1 && e.children[0] is Text {
        plain_text(e.children[0]->Text_0)
    } else {
        canonical_children(e, 0)
    }
}

pub open spec fn canonical_children(e: SElement, i: int) -> bool
    decreases e, e.children.len() - i,
{
    if i < 0 || i >= e.children.len() {
        true
    } else {
        (match e.children[i] {
            SNode::Element(c) => canonical_element(c),
            SNode::Text(_) => false,
        }) && canonical_children(e, i + 1)
    }
}

pub open spec fn line_end(nl: Seq<char>) -> bool {
    nl == seq!['\n'] || nl == seq!['\r', '\n']
}

// ---------------------------------------------------------------------------
// Reading pieces of text
// ---------------------------------------------------------------------------

proof fn lemma_split(s: Seq<char>, p: int, x: Seq<char>, y: Seq<char>)
    requires
        starts_at(s, p, x + y),
    ensures
        starts_at(s, p, x),
        starts_at(s, p + x.len(), y),
{
    assert forall|i: int| 0 <= i < x.len() implies s.subrange(p, p + x.len())[i] == x[i] by {
        assert(s.subrange(p, p + x.len() + y.len())[i] == (x + y)[i]);
    }
    assert(s.subrange(p, p + x.len()) =~= x);
    assert forall|i: int| 0 <= i < y.len() implies s.subrange(p + x.len(), p + x.len() + y.len())[i] == y[i] by {
        assert(s.subrange(p, p + x.len() + y.len())[x.len() + i] == (x + y)[x.len() + i]);
    }
    assert(s.subrange(p + x.len(), p + x.len() + y.len()) =~= y);
}

proof fn lemma_char_at(s: Seq<char>, p: int, x: Seq<char>, i: int)
    requires
        starts_at(s, p, x),
        0 <= i < x.len(),
    ensures
        s[p + i] == x[i],
{
    assert(s.subrange(p, p + x.len())[i] == x[i]);
}

proof fn lemma_name_end_at(s: Seq<char>, q: int, n: Seq<char>, k: int)
    requires
        starts_at(s, q, n),
        q + n.len() < s.len(),
        is_name_stop(s[q + n.len()]),
        forall|i: int| 0 <= i < n.len() ==> !is_name_stop(#[trigger] n[i]),
        0 <= k <= n.len(),
    ensures
        name_end(s, q + k) == q + n.len(),
    decreases n.len() - k,
{
    if k < n.len() {
        lemma_char_at(s, q, n, k);
        lemma_name_end_at(s, q, n, k + 1);
    }
}

proof fn lemma_skip_ws_run(s: Seq<char>, p: int, w: Seq<char>, k: int)
    requires
        starts_at(s, p, w),
        all_ws(w),
        p + w.len() < s.len(),
        !is_ws(s[p + w.len()]),
        0 <= k <= w.len(),
    ensures
        skip_ws(s, p + k) == p + w.len(),
    decreases w.len() - k,
{
    if k < w.len() {
        lemma_char_at(s, p, w, k);
        lemma_skip_ws_run(s, p, w, k + 1);
    }
}

proof fn lemma_find_after(s: Seq<char>, p: int, w: Seq<char>, c: char)
    requires
        starts_at(s, p, w),
        p + w.len() < s.len(),
        s[p + w.len()] == c,
        forall|i: int| 0 <= i < w.len() ==> #[trigger] w[i] != c,
    ensures
        find_from(s, p, c) == p + w.len(),
{
    assert forall|k: int| p <= k < p + w.len() implies s[k] != c by {
        lemma_char_at(s, p, w, k - p);
    }
    lemma_find_first(s, p, p + w.len(), c);
}

proof fn lemma_line_end_ws(nl: Seq<char>, d: nat)
    requires
        line_end(nl),
    ensures
        all_ws(nl + tabs(d)),
        (nl + tabs(d)).len() > 0,
        forall|i: int| 0 <= i < (nl + tabs(d)).len() ==> #[trigger] (nl + tabs(d))[i] != '<',
{
    let w = nl + tabs(d);
    assert forall|i: int| 0 <= i < w.len() implies is_ws(#[trigger] w[i]) && w[i] != '<' by {
        if i < nl.len() {
            assert(w[i] == nl[i]);
        } else {
            assert(w[i] == tabs(d)[i - nl.len()]);
        }
    }
}

// ---------------------------------------------------------------------------
// Attributes
// ---------------------------------------------------------------------------

pub open spec fn attr_text(a: SAttr) -> Seq<char> {
    seq![' '] + a.name + seq!['=', '"'] + a.value + seq!['"']
}

proof fn lemma_attrs_prefix(a: Seq<SAttr>, k: int)
    requires
        0 <= k <= a.len(),
    ensures
        attrs_text(a) == attrs_text(a.take(k)) + attrs_text(a).subrange(attrs_text(a.take(k)).len() as int, attrs_text(a).len() as int),
        attrs_text(a.take(k)).len() <= attrs_text(a).len(),
    decreases a.len(),
{
    if k == a.len() {
        assert(a.take(k) =~= a);
        assert(attrs_text(a).subrange(attrs_text(a).len() as int, attrs_text(a).len() as int) =~= Seq::<char>::empty());
        assert(attrs_text(a) =~= attrs_text(a) + Seq::<char>::empty());
    } else {
        let b = a.drop_last();
        assert(b.take(k) =~= a.take(k));
        lemma_attrs_prefix(b, k);
        let t = attrs_text(a.take(k));
        assert(attrs_text(a) =~= t + attrs_text(a).subrange(t.len() as int, attrs_text(a).len() as int));
    }
}

proof fn lemma_attrs_step(a: Seq<SAttr>, k: int)
    requires
        0 <= k < a.len(),
    ensures
        attrs_text(a.take(k + 1)) == attrs_text(a.take(k)) + attr_text(a[k]),
{
    assert(a.take(k + 1).drop_last() =~= a.take(k));
    assert(attrs_text(a.take(k + 1)) =~= attrs_text(a.take(k)) + attr_text(a[k]));
}

proof fn lemma_parse_attrs(s: Seq<char>, p: int, el: SElement, a: Seq<SAttr>, k: int)
    requires
        plain_attrs(a),
        starts_at(s, p, attrs_text(a)),
        p + attrs_text(a).len() < s.len(),
        !is_ws(s[p + attrs_text(a).len()]),
        0 <= k <= a.len(),
    ensures
        parse_tag(s, p + attrs_text(a.take(k)).len(), SElement { attrs: a.take(k), ..el }) == parse_tag(
            s,
            p + attrs_text(a).len(),
            SElement { attrs: a, ..el },
        ),
    decreases a.len() - k,
{
    if k == a.len() {
        assert(a.take(k) =~= a);
    } else {
        lemma_attrs_prefix(a, k + 1);
        lemma_attrs_step(a, k);
        let t0 = attrs_text(a.take(k));
        let at = a[k];
        let rest = attrs_text(a).subrange(attrs_text(a.take(k + 1)).len() as int, attrs_text(a).len() as int);
        assert(attrs_text(a) =~= t0 + (attr_text(at) + rest));
        lemma_split(s, p, t0, attr_text(at) + rest);
        let pk = p + t0.len();
        lemma_split(s, pk, attr_text(at), rest);
        // ' ' name '=' '"' value '"'
        let sp = seq![' '];
        assert(attr_text(at) =~= sp + (at.name + (seq!['=', '"'] + (at.value + seq!['"']))));
        lemma_split(s, pk, sp, at.name + (seq!['=', '"'] + (at.value + seq!['"'])));
        lemma_split(s, pk + 1, at.name, seq!['=', '"'] + (at.value + seq!['"']));
        let n1 = pk + 1 + at.name.len();
        lemma_split(s, n1, seq!['=', '"'], at.value + seq!['"']);
        lemma_split(s, n1 + 2, at.value, seq!['"']);
        lemma_char_at(s, pk, sp, 0);
        lemma_char_at(s, n1, seq!['=', '"'], 0);
        lemma_char_at(s, n1, seq!['=', '"'], 1);
        lemma_char_at(s, n1 + 2 + at.value.len(), seq!['"'], 0);
        assert(plain_name(at.name) && plain_value(at.value));
        lemma_char_at(s, pk + 1, at.name, 0);
        assert(!is_name_stop(at.name[0]));
        assert(skip_ws(s, pk + 1) == pk + 1);
        assert(skip_ws(s, pk) == pk + 1);
        lemma_name_end_at(s, pk + 1, at.name, 0);
        assert(skip_ws(s, n1) == n1);
        assert(skip_ws(s, n1 + 1) == n1 + 1);
        assert forall|i: int| 0 <= i < at.value.len() implies #[trigger] at.value[i] != '"' by {}
        lemma_find_after(s, n1 + 2, at.value, '"');
        let e = n1 + 2 + at.value.len();
        assert(s.subrange(pk + 1, n1) == at.name);
        assert(s.subrange(n1 + 2, e) == at.value);
        assert(with_attr(SElement { attrs: a.take(k), ..el }, SAttr { name: s.subrange(pk + 1, n1), value: s.subrange(n1 + 2, e) })
            == SElement { attrs: a.take(k + 1), ..el }) by {
            assert(a.take(k).push(at) =~= a.take(k + 1));
        }
        assert(e + 1 == p + attrs_text(a.take(k + 1)).len());
        lemma_parse_attrs(s, p, el, a, k + 1);
    }
}

// ---------------------------------------------------------------------------
// Elements
// ---------------------------------------------------------------------------

/// What follows the start tag's attributes in the serialization.
pub open spec fn after_attrs(e: SElement, depth: nat, nl: Seq<char>) -> Seq<char> {
    if e.children.len() == 0 {
        if e.self_closing {
            seq!['/', '>']
        } else {
            seq!['>'] + close_tag(e.name)
        }
    } else if e.children.len() == 1 && e.children[0] is Text {
        seq!['>'] + e.children[0]->Text_0 + close_tag(e.name)
    } else {
        seq!['>'] + nl + children_text(e, 0, depth, nl) + tabs(depth) + close_tag(e.name)
    }
}

proof fn lemma_elem_shape(e: SElement, depth: nat, nl: Seq<char>)
    ensures
        elem_text(e, depth, nl) == tabs(depth) + (seq!['<'] + (e.name + (attrs_text(e.attrs) + after_attrs(e, depth, nl)))),
        after_attrs(e, depth, nl).len() > 0,
        after_attrs(e, depth, nl)[0] == '/' || after_attrs(e, depth, nl)[0] == '>',
{
    let a = after_attrs(e, depth, nl);
    if e.children.len() == 0 {
        if e.self_closing {
            assert(elem_text(e, depth, nl) =~= tabs(depth) + (seq!['<'] + (e.name + (attrs_text(e.attrs) + a))));
        } else {
            assert(elem_text(e, depth, nl) =~= tabs(depth) + (seq!['<'] + (e.name + (attrs_text(e.attrs) + a))));
        }
    } else if e.children.len() == 1 && e.children[0] is Text {
        assert(elem_text(e, depth, nl) =~= tabs(depth) + (seq!['<'] + (e.name + (attrs_text(e.attrs) + a))));
    } else {
        assert(elem_text(e, depth, nl) =~= tabs(depth) + (seq!['<'] + (e.name + (attrs_text(e.attrs) + a))));
    }
}

/// The next character after a start tag's name is a name stop.
proof fn lemma_after_name(a: Seq<SAttr>, rest: Seq<char>)
    requires
        rest.len() > 0,
        rest[0] == '/' || rest[0] == '>',
    ensures
        (attrs_text(a) + rest).len() > 0,
        is_name_stop((attrs_text(a) + rest)[0]),
{
    if a.len() > 0 {
        lemma_attrs_prefix(a, 1);
        lemma_attrs_step(a, 0);
        assert(a.take(0) =~= Seq::<SAttr>::empty());
        assert(attrs_text(a.take(1))[0] == ' ');
        assert(attrs_text(a)[0] == ' ');
    }
}

/// A closing tag, after some text `w` without `<`.
proof fn lemma_parse_close(s: Seq<char>, p: int, w: Seq<char>, el: SElement)
    requires
        plain_name(el.name),
        starts_at(s, p, w + close_tag(el.name)),
        forall|i: int| 0 <= i < w.len() ==> #[trigger] w[i] != '<',
    ensures
        parse_children(s, p, el) == Ok::<(SElement, int), int>(
            (
                if w.len() > 0 && !all_ws(w) {
                    with_child(el, SNode::Text(w))
                } else {
                    el
                },
                p + w.len() + close_tag(el.name).len(),
            ),
        ),
{
    let ct = close_tag(el.name);
    lemma_split(s, p, w, ct);
    let u = p + w.len();
    let two = seq!['<', '/'];
    assert(ct =~= two + (el.name + seq!['>']));
    lemma_split(s, u, two, el.name + seq!['>']);
    lemma_split(s, u + 2, el.name, seq!['>']);
    lemma_char_at(s, u, two, 0);
    lemma_char_at(s, u + 2 + el.name.len(), seq!['>'], 0);
    lemma_find_after(s, p, w, '<');
    assert(s.subrange(p, u) == w);
    lemma_name_end_at(s, u + 2, el.name, 0);
    assert(skip_ws(s, u + 2 + el.name.len()) == u + 2 + el.name.len());
}

proof fn lemma_elem_head(c: SElement, d: nat, nl: Seq<char>)
    requires
        plain_name(c.name),
    ensures
        elem_text(c, d, nl).len() > d + 1,
        elem_text(c, d, nl).subrange(0, d as int) == tabs(d),
        elem_text(c, d, nl)[d as int] == '<',
        !is_name_stop(elem_text(c, d, nl)[d + 1int]),
{
    lemma_elem_shape(c, d, nl);
    let t = elem_text(c, d, nl);
    let r = seq!['<'] + (c.name + (attrs_text(c.attrs) + after_attrs(c, d, nl)));
    assert(t.subrange(0, d as int) =~= tabs(d));
    assert(t[d as int] == r[0]);
    assert(t[d + 1int] == r[1]);
    assert(r[1] == c.name[0]);
}

/// Parsing the serialization of a canonical element (from its `<`) gives
/// the element back, ending right after its text.
pub proof fn lemma_parse_element(s: Seq<char>, p: int, e: SElement, depth: nat, nl: Seq<char>)
    requires
        canonical_element(e),
        line_end(nl),
        starts_at(s, p, elem_text(e, depth, nl)),
    ensures
        parse_element(s, p + depth) == Ok::<(SElement, int), int>((e, p + elem_text(e, depth, nl).len())),
    decreases e, e.children.len() + 1,
{
    let a = after_attrs(e, depth, nl);
    lemma_elem_shape(e, depth, nl);
    let x = p + depth;
    let lt = seq!['<'];
    lemma_split(s, p, tabs(depth), lt + (e.name + (attrs_text(e.attrs) + a)));
    lemma_split(s, x, lt, e.name + (attrs_text(e.attrs) + a));
    lemma_split(s, x + 1, e.name, attrs_text(e.attrs) + a);
    let n1 = x + 1 + e.name.len();
    lemma_split(s, n1, attrs_text(e.attrs), a);
    let pa = n1 + attrs_text(e.attrs).len();
    lemma_char_at(s, x, lt, 0);
    lemma_char_at(s, x + 1, e.name, 0);
    assert(!starts_at(s, x, seq!['<', '!', '-', '-'])) by {
        if starts_at(s, x, seq!['<', '!', '-', '-']) {
            lemma_char_at(s, x, seq!['<', '!', '-', '-'], 1);
        }
    }
    lemma_after_name(e.attrs, a);
    lemma_char_at(s, n1, attrs_text(e.attrs) + a, 0);
    lemma_name_end_at(s, x + 1, e.name, 0);
    lemma_char_at(s, pa, a, 0);
    let el0 = SElement { name: e.name, attrs: seq![], children: seq![], self_closing: true };
    assert(s.subrange(x + 1, n1) == e.name);
    assert(e.attrs.take(0) =~= Seq::<SAttr>::empty());
    assert(attrs_text(e.attrs.take(0)) =~= Seq::<char>::empty());
    lemma_parse_attrs(s, n1, el0, e.attrs, 0);
    let ela = SElement { attrs: e.attrs, ..el0 };
    assert(skip_ws(s, pa) == pa);
    if e.children.len() == 0 {
        if e.self_closing {
            assert(a =~= seq!['/', '>']);
            assert(with_self_closing(ela, true) =~= e) by {
                assert(e.children =~= Seq::<SNode>::empty());
            }
        } else {
            let gt = seq!['>'];
            assert(a =~= gt + close_tag(e.name));
            lemma_split(s, pa, gt, close_tag(e.name));
            let elc = with_self_closing(ela, false);
            lemma_parse_close(s, pa + 1, Seq::<char>::empty(), elc);
            assert(Seq::<char>::empty() + close_tag(e.name) =~= close_tag(e.name));
            assert(elc =~= e) by {
                assert(e.children =~= Seq::<SNode>::empty());
            }
        }
    } else if e.children.len() == 1 && e.children[0] is Text {
        let t = e.children[0]->Text_0;
        let gt = seq!['>'];
        assert(a =~= gt + (t + close_tag(e.name)));
        lemma_split(s, pa, gt, t + close_tag(e.name));
        let elc = with_self_closing(ela, false);
        lemma_parse_close(s, pa + 1, t, elc);
        assert(t.len() > 0) by {
            if t.len() == 0 {
                assert(all_ws(t));
            }
        }
        assert(with_child(elc, SNode::Text(t)) =~= e) by {
            assert(seq![SNode::Text(t)] =~= e.children);
        }
    } else {
        let gt = seq!['>'];
        let body = nl + children_text(e, 0, depth, nl) + tabs(depth) + close_tag(e.name);
        assert(a =~= gt + body);
        lemma_split(s, pa, gt, body);
        let elc = with_self_closing(ela, false);
        assert(elc == SElement { children: e.children.take(0), self_closing: false, ..e }) by {
            assert(e.children.take(0) =~= Seq::<SNode>::empty());
        }
        lemma_parse_children(s, pa + 1, e, depth, nl, 0);
        assert(SElement { self_closing: false, ..e } == e);
    }
}

proof fn lemma_parse_children(s: Seq<char>, q: int, e: SElement, depth: nat, nl: Seq<char>, i: int)
    requires
        plain_name(e.name),
        canonical_children(e, i),
        line_end(nl),
        0 <= i <= e.children.len(),
        starts_at(s, q, nl + children_text(e, i, depth, nl) + tabs(depth) + close_tag(e.name)),
    ensures
        parse_children(s, q, SElement { children: e.children.take(i), self_closing: false, ..e }) == Ok::<
            (SElement, int),
            int,
        >(
            (
                SElement { self_closing: false, ..e },
                q + (nl + children_text(e, i, depth, nl) + tabs(depth) + close_tag(e.name)).len(),
            ),
        ),
    decreases e, e.children.len() - i,
{
    let el = SElement { children: e.children.take(i), self_closing: false, ..e };
    let ct = close_tag(e.name);
    lemma_line_end_ws(nl, depth);
    if i == e.children.len() {
        let w = nl + tabs(depth);
        assert(nl + children_text(e, i, depth, nl) + tabs(depth) + ct =~= w + ct);
        lemma_parse_close(s, q, w, el);
        assert(e.children.take(i) =~= e.children);
    } else {
        let c = e.children[i]->Element_0;
        assert(e.children[i] is Element);
        assert(canonical_element(c));
        let et = elem_text(c, depth + 1, nl);
        let next = nl + children_text(e, i + 1, depth, nl) + tabs(depth) + ct;
        assert(children_text(e, i, depth, nl) == et + nl + children_text(e, i + 1, depth, nl));
        assert(nl + children_text(e, i, depth, nl) + tabs(depth) + ct =~= nl + (et + next));
        lemma_split(s, q, nl, et + next);
        let pc = q + nl.len();
        lemma_split(s, pc, et, next);
        lemma_elem_head(c, (depth + 1) as nat, nl);
        let w = nl + tabs((depth + 1) as nat);
        lemma_line_end_ws(nl, (depth + 1) as nat);
        assert(et.subrange(0, depth + 1int) == tabs((depth + 1) as nat));
        assert(starts_at(s, q, w)) by {
            assert forall|k: int| 0 <= k < w.len() implies s.subrange(q, q + w.len())[k] == w[k] by {
                if k < nl.len() {
                    lemma_char_at(s, q, nl, k);
                } else {
                    lemma_char_at(s, pc, et, k - nl.len());
                    assert(et.subrange(0, depth + 1int)[k - nl.len()] == et[k - nl.len()]);
                }
            }
            assert(s.subrange(q, q + w.len()) =~= w);
        }
        let u = q + w.len();
        lemma_char_at(s, pc, et, depth + 1int);
        lemma_char_at(s, pc, et, depth + 2int);
        lemma_find_after(s, q, w, '<');
        assert(s.subrange(q, u) == w);
        assert(!starts_at(s, u, seq!['<', '/'])) by {
            if starts_at(s, u, seq!['<', '/']) {
                lemma_char_at(s, u, seq!['<', '/'], 1);
            }
        }
        lemma_parse_element(s, pc, c, (depth + 1) as nat, nl);
        assert(with_child(el, SNode::Element(c)) == SElement { children: e.children.take(i + 1), self_closing: false, ..e }) by {
            assert(e.children.take(i).push(SNode::Element(c)) =~= e.children.take(i + 1));
        }
        assert(canonical_children(e, i + 1));
        lemma_parse_children(s, pc + et.len(), e, depth, nl, i + 1);
    }
}

// ---------------------------------------------------------------------------
// Documents
// ---------------------------------------------------------------------------

/// An XML declaration the parser reads back whole: `<?` … `?>`, with no
/// earlier `?>` and no line feed.
pub open spec fn plain_decl(x: Seq<char>) -> bool {
    &&& x.len() >= 3
    &&& x[0] == '<'
    &&& x[1] == '?'
    &&& x[x.len() - 2] == '?'
    &&& x[x.len() - 1] == '>'
    &&& forall|j: int| 0 <= j < x.len() - 2 ==> !(#[trigger] x[j] == '?' && x[j + 1] == '>')
    &&& forall|i: int| 0 <= i < x.len() ==> #[trigger] x[i] != '\n'
}

/// The root spans several lines: it has element children.
pub open spec fn multiline(e: SElement) -> bool {
    e.children.len() > 0 && !(e.children.len() == 1 && e.children[0] is Text)
}

/// A document in Loxone's own layout: canonical elements, a plain
/// declaration, ASCII whitespace after the root, and a line ending that
/// shows (after the declaration, or inside the root).
pub open spec fn canonical_doc(d: SDoc) -> bool {
    &&& canonical_element(d.root)
    &&& all_ascii_ws(d.trailing)
    &&& match d.decl {
        Some(x) => plain_decl(x),
        None => multiline(d.root),
    }
}

proof fn lemma_attrs_no_lf(a: Seq<SAttr>)
    requires
        plain_attrs(a),
    ensures
        forall|i: int| 0 <= i < attrs_text(a).len() ==> #[trigger] attrs_text(a)[i] != '\n',
    decreases a.len(),
{
    if a.len() > 0 {
        let b = a.drop_last();
        assert(plain_attrs(b)) by {
            assert forall|i: int| 0 <= i < b.len() implies plain_name(#[trigger] b[i].name) && plain_value(b[i].value) by {
                assert(b[i] == a[i]);
            }
        }
        lemma_attrs_no_lf(b);
        let l = a.last();
        assert(plain_name(a[a.len() - 1].name) && plain_value(a[a.len() - 1].value));
        let t = attrs_text(a);
        let tb = attrs_text(b);
        assert(t =~= tb + (seq![' '] + l.name + seq!['=', '"'] + l.value + seq!['"']));
        assert forall|i: int| 0 <= i < t.len() implies #[trigger] t[i] != '\n' by {
            if i < tb.len() {
                assert(t[i] == tb[i]);
            } else {
                let j = i - tb.len();
                let r = seq![' '] + l.name + seq!['=', '"'] + l.value + seq!['"'];
                assert(t[i] == r[j]);
                if 1 <= j < 1 + l.name.len() {
                    assert(r[j] == l.name[j - 1]);
                    assert(!is_name_stop(l.name[j - 1]));
                } else if 3 + l.name.len() <= j < 3 + l.name.len() + l.value.len() {
                    assert(r[j] == l.value[j - 3 - l.name.len()]);
                }
            }
        }
    }
}

proof fn lemma_find_pair_decl(s: Seq<char>, p: int, x: Seq<char>, k: int)
    requires
        plain_decl(x),
        starts_at(s, p, x),
        0 <= k <= x.len() - 2,
    ensures
        find_pair(s, p + k, '?', '>') == p + x.len() - 2,
    decreases x.len() - 2 - k,
{
    lemma_char_at(s, p, x, k);
    lemma_char_at(s, p, x, k + 1);
    if k < x.len() - 2 {
        lemma_find_pair_decl(s, p, x, k + 1);
    }
}

proof fn lemma_at3(a: Seq<char>, b: Seq<char>, x: Seq<char>, c: Seq<char>)
    ensures
        starts_at(a + (b + (x + c)), (a.len() + b.len()) as int, x),
        (a + (b + (x + c))).subrange((a.len() + b.len() + x.len()) as int, (a + (b + (x + c))).len() as int) == c,
        starts_at(a + (b + (x + c)), a.len() as int, b),
        starts_at(a + (b + (x + c)), 0, a),
{
    let s = a + (b + (x + c));
    assert(s.subrange((a.len() + b.len()) as int, (a.len() + b.len() + x.len()) as int) =~= x);
    assert(s.subrange((a.len() + b.len() + x.len()) as int, s.len() as int) =~= c);
    assert(s.subrange(a.len() as int, (a.len() + b.len()) as int) =~= b);
    assert(s.subrange(0, a.len() as int) =~= a);
}

/// The written text, with its structure hidden from proofs that only need
/// a few facts about it.
#[verifier::opaque]
spec fn written(d: SDoc) -> Seq<char> {
    doc_text(d)
}

spec fn start_of(d: SDoc) -> int {
    if d.bom {
        1
    } else {
        0
    }
}

spec fn root_start(d: SDoc) -> int {
    start_of(d) + match d.decl {
        Some(x) => x.len() + nl_text(d.crlf).len(),
        None => 0,
    }
}

/// The facts `parse_doc` reads off the written text.
proof fn lemma_layout(d: SDoc)
    requires
        canonical_doc(d),
    ensures
        ({
            let s = written(d);
            let p0 = start_of(d);
            let p3 = root_start(d);
            let et = elem_text(d.root, 0, nl_text(d.crlf));
            &&& (s.len() > 0 && s[0] == '\u{feff}') == d.bom
            &&& skip_ws(s, p0) == p0
            &&& match d.decl {
                Some(x) => starts_at(s, p0, seq!['<', '?']) && find_pair(s, p0, '?', '>') == p0 + x.len() - 2
                    && s.subrange(p0, p0 + x.len()) == x && skip_ws(s, p0 + x.len()) == p3,
                None => !starts_at(s, p0, seq!['<', '?']) && p3 == p0,
            }
            &&& starts_at(s, p3, et)
            &&& s.subrange(p3 + et.len(), s.len() as int) == d.trailing
        }),
{
    reveal(written);
    let nl = nl_text(d.crlf);
    let s = written(d);
    let et = elem_text(d.root, 0, nl);
    let b: Seq<char> = if d.bom { seq!['\u{feff}'] } else { Seq::<char>::empty() };
    let dp: Seq<char> = match d.decl {
        Some(x) => x + nl,
        None => Seq::<char>::empty(),
    };
    assert(s =~= b + (dp + (et + d.trailing)));
    lemma_at3(b, dp, et, d.trailing);
    let p0: int = b.len() as int;
    let p3: int = p0 + dp.len();
    assert(p3 == root_start(d));
    lemma_elem_head(d.root, 0, nl);
    lemma_char_at(s, p3, et, 0);
    lemma_char_at(s, p3, et, 1);
    if d.bom {
        lemma_char_at(s, 0, b, 0);
    }
    match d.decl {
        Some(x) => {
            lemma_split(s, p0, x, nl);
            lemma_char_at(s, p0, x, 0);
            lemma_char_at(s, p0, x, 1);
            assert(skip_ws(s, p0) == p0);
            assert(starts_at(s, p0, seq!['<', '?'])) by {
                assert(s.subrange(p0, p0 + 2) =~= seq!['<', '?']);
            }
            lemma_find_pair_decl(s, p0, x, 0);
            assert(line_end(nl));
            lemma_line_end_ws(nl, 0);
            assert(nl + tabs(0) =~= nl);
            lemma_skip_ws_run(s, p0 + x.len(), nl, 0);
        },
        None => {
            assert(skip_ws(s, p0) == p0);
            assert(!starts_at(s, p0, seq!['<', '?'])) by {
                if starts_at(s, p0, seq!['<', '?']) {
                    lemma_char_at(s, p0, seq!['<', '?'], 1);
                }
            }
        },
    }
}

proof fn lemma_doc_from_layout(s: Seq<char>, d: SDoc, q: int)
    requires
        (s.len() > 0 && s[0] == '\u{feff}') == d.bom,
        skip_ws(s, start_of(d)) == start_of(d),
        match d.decl {
            Some(x) => starts_at(s, start_of(d), seq!['<', '?']) && find_pair(s, start_of(d), '?', '>')
                == start_of(d) + x.len() - 2 && s.subrange(start_of(d), start_of(d) + x.len()) == x && skip_ws(
                s,
                start_of(d) + x.len(),
            ) == root_start(d),
            None => !starts_at(s, start_of(d), seq!['<', '?']) && root_start(d) == start_of(d),
        },
        0 <= root_start(d) < s.len(),
        s[root_start(d)] == '<',
        parse_element(s, root_start(d)) == Ok::<(SElement, int), int>((d.root, q)),
        root_start(d) < q <= s.len(),
        s.subrange(q, s.len() as int) == d.trailing,
        all_ascii_ws(d.trailing),
    ensures
        parse_doc(s) == Ok::<SDoc, int>(SDoc { crlf: true, ..d }),
{
}

proof fn lemma_parse_doc(d: SDoc)
    requires
        canonical_doc(d),
    ensures
        parse_doc(doc_text(d)) == Ok::<SDoc, int>(SDoc { crlf: true, ..d }),
{
    let s = written(d);
    let nl = nl_text(d.crlf);
    let et = elem_text(d.root, 0, nl);
    let p3 = root_start(d);
    lemma_layout(d);
    assert(line_end(nl));
    lemma_parse_element(s, p3, d.root, 0, nl);
    lemma_elem_head(d.root, 0, nl);
    lemma_char_at(s, p3, et, 0);
    lemma_doc_from_layout(s, d, p3 + et.len());
    reveal(written);
}

/// No line feed before the end of a start tag, which ends in `>`.
proof fn lemma_open_tag_no_lf(e: SElement)
    requires
        plain_name(e.name),
        plain_attrs(e.attrs),
    ensures
        forall|i: int| 0 <= i < (open_tag(e, 0) + seq!['>']).len() ==> #[trigger] (open_tag(e, 0) + seq!['>'])[i] != '\n',
{
    lemma_attrs_no_lf(e.attrs);
    let ot = open_tag(e, 0);
    let r = ot + seq!['>'];
    assert(ot =~= seq!['<'] + e.name + attrs_text(e.attrs));
    assert forall|j: int| 0 <= j < r.len() implies #[trigger] r[j] != '\n' by {
        if j < ot.len() {
            assert(r[j] == ot[j]);
            if 1 <= j < 1 + e.name.len() {
                assert(ot[j] == e.name[j - 1]);
                assert(!is_name_stop(e.name[j - 1]));
            } else if j >= 1 + e.name.len() {
                assert(ot[j] == attrs_text(e.attrs)[j - 1 - e.name.len()]);
            }
        }
    }
}

/// The convention read off the first line ending, after a prefix `w`
/// without line feeds that ends in `>`.
proof fn lemma_crlf_after(s: Seq<char>, w: Seq<char>, nl: Seq<char>, rest: Seq<char>)
    requires
        line_end(nl),
        s == w + (nl + rest),
        w.len() > 0,
        w[w.len() - 1] == '>',
        forall|i: int| 0 <= i < w.len() ==> #[trigger] w[i] != '\n',
    ensures
        crlf_of(s) == (nl == seq!['\r', '\n']),
{
    let nlp = nl.drop_last();
    let w2 = w + nlp;
    assert(nl =~= nlp.push('\n'));
    assert forall|i: int| 0 <= i < w2.len() implies #[trigger] w2[i] != '\n' by {
        if i < w.len() {
            assert(w2[i] == w[i]);
        } else {
            assert(w2[i] == nlp[i - w.len()]);
        }
    }
    assert(s =~= w2 + (seq!['\n'] + rest));
    assert(starts_at(s, 0, w2 + seq!['\n'])) by {
        assert(s.subrange(0, (w2 + seq!['\n']).len() as int) =~= w2 + seq!['\n']);
    }
    lemma_split(s, 0, w2, seq!['\n']);
    lemma_char_at(s, w2.len() as int, seq!['\n'], 0);
    lemma_find_after(s, 0, w2, '\n');
    let i = w2.len() as int;
    if nl == seq!['\r', '\n'] {
        assert(s[i - 1] == nlp[0]);
    } else {
        assert(nlp.len() == 0);
        assert(s[i - 1] == w[w.len() - 1]);
    }
}

proof fn lemma_crlf(d: SDoc)
    requires
        canonical_doc(d),
    ensures
        crlf_of(doc_text(d)) == d.crlf,
{
    let nl = nl_text(d.crlf);
    let s = doc_text(d);
    let b: Seq<char> = if d.bom { seq!['\u{feff}'] } else { Seq::<char>::empty() };
    let et = elem_text(d.root, 0, nl);
    match d.decl {
        Some(x) => {
            let w = b + x;
            assert(s =~= w + (nl + (et + d.trailing)));
            assert forall|i: int| 0 <= i < w.len() implies #[trigger] w[i] != '\n' by {
                if i < b.len() {
                    assert(w[i] == b[i]);
                } else {
                    assert(w[i] == x[i - b.len()]);
                }
            }
            assert(w[w.len() - 1] == x[x.len() - 1]);
            lemma_crlf_after(s, w, nl, et + d.trailing);
        },
        None => {
            let r = open_tag(d.root, 0) + seq!['>'];
            let w = b + r;
            lemma_open_tag_no_lf(d.root);
            let rest = children_text(d.root, 0, 0, nl) + tabs(0) + close_tag(d.root.name);
            assert(elem_text(d.root, 0, nl) =~= r + (nl + rest));
            assert(s =~= w + (nl + (rest + d.trailing)));
            assert forall|i: int| 0 <= i < w.len() implies #[trigger] w[i] != '\n' by {
                if i < b.len() {
                    assert(w[i] == b[i]);
                } else {
                    assert(w[i] == r[i - b.len()]);
                }
            }
            assert(w[w.len() - 1] == r[r.len() - 1]);
            lemma_crlf_after(s, w, nl, rest + d.trailing);
        },
    }
}

/// Parsing what the writer emits gives the same document back, for every
/// document in canonical form (the lossless round trip).
pub proof fn parse_gives_back_what_was_written(d: SDoc)
    requires
        canonical_doc(d),
    ensures
        xml_parse(vstd::utf8::encode_utf8(doc_text(d))) == Ok::<SDoc, nat>(d),
{
    broadcast use vstd::utf8::encode_utf8_valid_utf8, vstd::utf8::encode_utf8_decode_utf8;

    lemma_parse_doc(d);
    lemma_crlf(d);
}

/// Bytes in Loxone's own serialization (the writing of a canonical
/// document) survive a parse and a write unchanged: the parse gives that
/// document, and writing it gives the same bytes.
pub proof fn loxone_bytes_survive_parse_and_write(bytes: Seq<u8>, d: SDoc)
    requires
        canonical_doc(d),
        bytes == vstd::utf8::encode_utf8(doc_text(d)),
    ensures
        xml_parse(bytes) == Ok::<SDoc, nat>(d),
        vstd::utf8::encode_utf8(doc_text(d)) == bytes,
{
    parse_gives_back_what_was_written(d);
}

} // verus!
