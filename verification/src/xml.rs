//! Lossless concrete-syntax model of a `.Loxone` XML document.
//!
//! Loxone Config emits machine-regular XML, but *not* spec-conforming XML:
//! attribute names may start with digits (`12hTF="true"`), and attribute
//! values may contain raw, unescaped newlines. This module therefore parses
//! the format directly.
//!
//! Attribute values and text nodes are stored **raw** (still entity-escaped);
//! decode on demand via [`unescape`]. The writer emits the canonical Loxone
//! serialization: UTF-8 BOM, CRLF line endings, tab indentation, a single
//! space between attributes, and `/>` for empty elements.
use crate::entities::{escape_text, unescape_text};
pub use crate::entities::{escape, unescape};
use crate::error::{Error, Result};
use crate::text::{
    all_ascii_ws, all_ws, chars_of, dec, find_char_from, find_from, is_ascii_whitespace, is_ws,
    is_whitespace, lemma_find_from, push_char, push_str, range_all_ascii_ws, range_all_ws,
    starts_at, starts_with_at, str_eq, string_from_range, string_of,
};
use vstd::prelude::*;
use vstd::string::StrSliceExecFns;
use vstd::utf8::{decode_utf8, encode_utf8, length_of_first_scalar, pop_first_scalar, valid_utf8};

verus! {

/// A whole `.Loxone` file.
#[derive(Debug)]
pub struct XmlDocument {
    /// Whether the file starts with a UTF-8 byte-order mark.
    pub bom: bool,
    /// The XML declaration line, verbatim without line ending.
    pub decl: Option<String>,
    /// Line-ending convention (CRLF or LF), written back as read.
    pub crlf: bool,
    /// Exact whitespace after the root's closing tag.
    pub trailing: String,
    pub root: Element,
}

#[derive(Debug)]
pub struct Element {
    pub name: String,
    pub attrs: Vec<Attr>,
    pub children: Vec<Node>,
    /// `true` when serialized as `<Name …/>`; preserved per element.
    pub self_closing: bool,
}

#[derive(Debug)]
pub enum Node {
    Element(Element),
    /// Raw (entity-escaped) character data.
    Text(String),
}

#[derive(Debug, Clone, PartialEq, Eq)]
pub struct Attr {
    pub name: String,
    /// Raw value exactly as it appears between the quotes.
    pub value: String,
}

// ---------------------------------------------------------------------------
// Models
// ---------------------------------------------------------------------------

pub struct SAttr {
    pub name: Seq<char>,
    pub value: Seq<char>,
}

pub struct SElement {
    pub name: Seq<char>,
    pub attrs: Seq<SAttr>,
    pub children: Seq<SNode>,
    pub self_closing: bool,
}

pub enum SNode {
    Element(SElement),
    Text(Seq<char>),
}

pub struct SDoc {
    pub bom: bool,
    pub decl: Option<Seq<char>>,
    pub crlf: bool,
    pub trailing: Seq<char>,
    pub root: SElement,
}

impl View for Attr {
    type V = SAttr;

    open spec fn view(&self) -> SAttr {
        SAttr { name: self.name@, value: self.value@ }
    }
}

impl Element {
    pub open spec fn model(&self) -> SElement
        decreases self,
    {
        SElement {
            name: self.name@,
            attrs: self.attrs@.map_values(|a: Attr| a@),
            children: Seq::new(
                self.children@.len(),
                |i: int|
                    if 0 <= i < self.children@.len() {
                        self.children@[i].model()
                    } else {
                        SNode::Text(seq![])
                    },
            ),
            self_closing: self.self_closing,
        }
    }
}

impl Node {
    pub open spec fn model(&self) -> SNode
        decreases self,
    {
        match self {
            Node::Element(e) => SNode::Element(e.model()),
            Node::Text(t) => SNode::Text(t@),
        }
    }
}

impl View for Element {
    type V = SElement;

    open spec fn view(&self) -> SElement {
        self.model()
    }
}

impl View for Node {
    type V = SNode;

    open spec fn view(&self) -> SNode {
        self.model()
    }
}

impl View for XmlDocument {
    type V = SDoc;

    open spec fn view(&self) -> SDoc {
        SDoc {
            bom: self.bom,
            decl: match self.decl {
                Some(d) => Some(d@),
                None => None,
            },
            crlf: self.crlf,
            trailing: self.trailing@,
            root: self.root@,
        }
    }
}

/// Nesting height of an element (1 for a leaf).
pub open spec fn height(e: SElement) -> nat
    decreases e, e.children.len() + 1,
{
    1 + children_height(e, 0)
}

pub open spec fn children_height(e: SElement, i: int) -> nat
    decreases e, e.children.len() - i,
{
    if i < 0 || i >= e.children.len() {
        0
    } else {
        let h = match e.children[i] {
            SNode::Element(c) => height(c),
            SNode::Text(_) => 0,
        };
        let rest = children_height(e, i + 1);
        if h > rest {
            h
        } else {
            rest
        }
    }
}

// ---------------------------------------------------------------------------
// Element access
// ---------------------------------------------------------------------------

/// Index of the first attribute named `name` at or after `i`, or -1.
pub open spec fn attr_index_from(a: Seq<SAttr>, name: Seq<char>, i: int) -> int
    decreases a.len() - i,
{
    if i < 0 || i >= a.len() {
        -1
    } else if a[i].name == name {
        i
    } else {
        attr_index_from(a, name, i + 1)
    }
}

/// Index of the first attribute named `name`, or -1.
pub open spec fn attr_index(a: Seq<SAttr>, name: Seq<char>) -> int {
    attr_index_from(a, name, 0)
}

/// The raw value of the first attribute named `name`.
pub open spec fn attr_value(e: SElement, name: Seq<char>) -> Option<Seq<char>> {
    let i = attr_index(e.attrs, name);
    if i >= 0 {
        Some(e.attrs[i].value)
    } else {
        None
    }
}

/// The attributes after setting `name` to the raw `value`: in place when
/// present, appended otherwise.
pub open spec fn set_attr_in(a: Seq<SAttr>, name: Seq<char>, value: Seq<char>) -> Seq<SAttr> {
    let i = attr_index(a, name);
    if i >= 0 {
        a.update(i, SAttr { name, value })
    } else {
        a.push(SAttr { name, value })
    }
}

/// The element children among `c`, in order.
pub open spec fn child_elems(c: Seq<SNode>) -> Seq<SElement>
    decreases c.len(),
{
    if c.len() == 0 {
        seq![]
    } else {
        match c.last() {
            SNode::Element(e) => child_elems(c.drop_last()).push(e),
            SNode::Text(_) => child_elems(c.drop_last()),
        }
    }
}

pub proof fn lemma_attr_index_from(a: Seq<SAttr>, name: Seq<char>, i: int)
    requires
        0 <= i,
    ensures
        attr_index_from(a, name, i) == -1 || (i <= attr_index_from(a, name, i) < a.len()
            && a[attr_index_from(a, name, i)].name == name),
        attr_index_from(a, name, i) == -1 ==> forall|k: int| i <= k < a.len() ==> a[k].name
            != name,
        attr_index_from(a, name, i) >= 0 ==> forall|k: int|
            i <= k < attr_index_from(a, name, i) ==> a[k].name != name,
    decreases a.len() - i,
{
    if i < a.len() && a[i].name != name {
        lemma_attr_index_from(a, name, i + 1);
    }
}

impl Element {
    /// A fresh, empty, self-closing element.
    pub fn new(name: &str) -> (e: Element)
        ensures
            e@ == (SElement { name: name@, attrs: seq![], children: seq![], self_closing: true }),
    {
        new_element(string_of(name))
    }

    /// Position of the first attribute named `name`.
    fn find_attr(&self, name: &str) -> (r: Option<usize>)
        ensures
            match r {
                Some(i) => i == attr_index(self@.attrs, name@) && i < self.attrs@.len(),
                None => attr_index(self@.attrs, name@) == -1,
            },
    {
        proof {
            lemma_attr_index_from(self@.attrs, name@, 0);
        }
        let mut i: usize = 0;
        while i < self.attrs.len()
            invariant
                0 <= i <= self.attrs@.len(),
                self@.attrs.len() == self.attrs@.len(),
                attr_index(self@.attrs, name@) == attr_index_from(self@.attrs, name@, i as int),
            decreases self.attrs@.len() - i,
        {
            assert(self@.attrs[i as int] == self.attrs@[i as int]@);
            if str_eq(self.attrs[i].name.as_str(), name) {
                return Some(i);
            }
            i = i + 1;
        }
        None
    }

    /// Raw (still escaped) attribute value.
    pub fn attr(&self, name: &str) -> (r: Option<&str>)
        ensures
            match r {
                Some(v) => attr_value(self@, name@) == Some(v@),
                None => attr_value(self@, name@) is None,
            },
    {
        match self.find_attr(name) {
            Some(i) => {
                assert(self@.attrs[i as int] == self.attrs@[i as int]@);
                Some(self.attrs[i].value.as_str())
            },
            None => None,
        }
    }

    /// Decoded attribute value.
    pub fn attr_decoded(&self, name: &str) -> (r: Option<String>)
        ensures
            match r {
                Some(v) => attr_value(self@, name@) matches Some(raw) && v@ == unescape_text(raw),
                None => attr_value(self@, name@) is None,
            },
    {
        match self.attr(name) {
            Some(v) => Some(unescape(v)),
            None => None,
        }
    }

    /// Set (or append) an attribute; the value is escaped here.
    pub fn set_attr(&mut self, name: &str, value: &str)
        ensures
            final(self)@ == (SElement {
                attrs: set_attr_in(old(self)@.attrs, name@, escape_text(value@)),
                ..old(self)@
            }),
    {
        let escaped = escape(value);
        self.set_attr_raw(name, escaped.as_str());
    }

    /// Set an attribute from an already-escaped raw value.
    pub fn set_attr_raw(&mut self, name: &str, raw: &str)
        ensures
            final(self)@ == (SElement { attrs: set_attr_in(old(self)@.attrs, name@, raw@), ..old(self)@ }),
    {
        let ghost o = self@;
        let a = Attr { name: string_of(name), value: string_of(raw) };
        match self.find_attr(name) {
            Some(i) => {
                self.attrs.set(i, a);
            },
            None => {
                self.attrs.push(a);
            },
        }
        proof {
            assert(self@.attrs =~= set_attr_in(o.attrs, name@, raw@));
            assert(self@.children =~= o.children);
        }
    }

    /// Remove the first attribute named `name`, handing it back.
    pub fn remove_attr(&mut self, name: &str) -> (r: Option<Attr>)
        ensures
            match r {
                Some(a) => {
                    let i = attr_index(old(self)@.attrs, name@);
                    &&& i >= 0
                    &&& a@ == old(self)@.attrs[i]
                    &&& final(self)@ == (SElement {
                        attrs: old(self)@.attrs.remove(i),
                        ..old(self)@
                    })
                },
                None => attr_index(old(self)@.attrs, name@) == -1 && final(self)@ == old(self)@,
            },
    {
        let ghost o = self@;
        match self.find_attr(name) {
            Some(i) => {
                let a = self.attrs.remove(i);
                proof {
                    assert(self@.attrs =~= o.attrs.remove(i as int));
                    assert(self@.children =~= o.children);
                }
                Some(a)
            },
            None => None,
        }
    }

    /// The element children, in order (text nodes skipped).
    pub fn child_elements(&self) -> (r: Vec<&Element>)
        ensures
            r@.map_values(|e: &Element| e@) == child_elems(self@.children),
    {
        let mut out: Vec<&Element> = Vec::new();
        let mut i: usize = 0;
        while i < self.children.len()
            invariant
                0 <= i <= self.children@.len(),
                self@.children.len() == self.children@.len(),
                out@.map_values(|e: &Element| e@) == child_elems(self@.children.take(i as int)),
            decreases self.children@.len() - i,
        {
            let ghost before = out@;
            proof {
                assert(self@.children.take(i + 1).drop_last() =~= self@.children.take(i as int));
                assert(self@.children.take(i + 1).last() == self.children@[i as int]@);
            }
            match &self.children[i] {
                Node::Element(e) => {
                    out.push(e);
                    proof {
                        assert(out@.map_values(|e: &Element| e@) =~= before.map_values(
                            |e: &Element| e@,
                        ).push(e@));
                    }
                },
                Node::Text(_) => {},
            }
            i = i + 1;
        }
        proof {
            assert(self@.children.take(self.children@.len() as int) =~= self@.children);
        }
        out
    }

    /// Append a child element; the element is no longer self-closing.
    pub fn push_child(&mut self, child: Element)
        ensures
            final(self)@ == (SElement {
                children: old(self)@.children.push(SNode::Element(child@)),
                self_closing: false,
                ..old(self)@
            }),
    {
        let ghost o = self@;
        self.self_closing = false;
        self.children.push(Node::Element(child));
        proof {
            assert(self@.children =~= o.children.push(SNode::Element(child@)));
            assert(self@.attrs =~= o.attrs);
        }
    }
}

// ---------------------------------------------------------------------------
// Writer
// ---------------------------------------------------------------------------

pub open spec fn nl_text(crlf: bool) -> Seq<char> {
    if crlf {
        seq!['\r', '\n']
    } else {
        seq!['\n']
    }
}

pub open spec fn tabs(n: nat) -> Seq<char> {
    Seq::new(n, |i: int| '\t')
}

/// ` name="value"` for each attribute.
pub open spec fn attrs_text(a: Seq<SAttr>) -> Seq<char>
    decreases a.len(),
{
    if a.len() == 0 {
        seq![]
    } else {
        attrs_text(a.drop_last()) + seq![' '] + a.last().name + seq!['=', '"'] + a.last().value
            + seq!['"']
    }
}

/// `<name attrs`, indented.
pub open spec fn open_tag(e: SElement, depth: nat) -> Seq<char> {
    tabs(depth) + seq!['<'] + e.name + attrs_text(e.attrs)
}

pub open spec fn close_tag(name: Seq<char>) -> Seq<char> {
    seq!['<', '/'] + name + seq!['>']
}

/// The serialization of an element, without its final line ending.
pub open spec fn elem_text(e: SElement, depth: nat, nl: Seq<char>) -> Seq<char>
    decreases e, e.children.len() + 1,
{
    if e.children.len() == 0 {
        if e.self_closing {
            open_tag(e, depth) + seq!['/', '>']
        } else {
            open_tag(e, depth) + seq!['>'] + close_tag(e.name)
        }
    } else if e.children.len() == 1 && e.children[0] is Text {
        open_tag(e, depth) + seq!['>'] + e.children[0]->Text_0 + close_tag(e.name)
    } else {
        open_tag(e, depth) + seq!['>'] + nl + children_text(e, 0, depth, nl) + tabs(depth)
            + close_tag(e.name)
    }
}

/// The serialization of `e`'s children from index `i` on, each followed by
/// a line ending.
pub open spec fn children_text(e: SElement, i: int, depth: nat, nl: Seq<char>) -> Seq<char>
    decreases e, e.children.len() - i,
{
    if i < 0 || i >= e.children.len() {
        seq![]
    } else {
        (match e.children[i] {
            SNode::Element(c) => elem_text(c, depth + 1, nl),
            SNode::Text(t) => t,
        }) + nl + children_text(e, i + 1, depth, nl)
    }
}

/// The whole document as text (before UTF-8 encoding).
pub open spec fn doc_text(d: SDoc) -> Seq<char> {
    let nl = nl_text(d.crlf);
    (if d.bom {
        seq!['\u{feff}']
    } else {
        seq![]
    }) + (match d.decl {
        Some(x) => x + nl,
        None => seq![],
    }) + elem_text(d.root, 0, nl) + d.trailing
}

fn push_tabs(out: &mut String, n: usize)
    ensures
        final(out)@ == old(out)@ + tabs(n as nat),
{
    let ghost o = out@;
    let mut i: usize = 0;
    while i < n
        invariant
            0 <= i <= n,
            out@ == o + tabs(i as nat),
        decreases n - i,
    {
        push_char(out, '\t');
        i = i + 1;
        proof {
            assert(tabs(i as nat) =~= tabs((i - 1) as nat).push('\t'));
        }
    }
}

fn write_open_tag(out: &mut String, e: &Element, depth: usize)
    ensures
        final(out)@ == old(out)@ + open_tag(e@, depth as nat),
{
    let ghost o = out@;
    push_tabs(out, depth);
    push_char(out, '<');
    push_str(out, e.name.as_str());
    let ghost head = out@;
    let mut i: usize = 0;
    while i < e.attrs.len()
        invariant
            0 <= i <= e.attrs@.len(),
            out@ == head + attrs_text(e@.attrs.take(i as int)),
        decreases e.attrs@.len() - i,
    {
        let a = &e.attrs[i];
        push_char(out, ' ');
        push_str(out, a.name.as_str());
        push_char(out, '=');
        push_char(out, '"');
        push_str(out, a.value.as_str());
        push_char(out, '"');
        proof {
            let t = e@.attrs.take(i + 1);
            assert(t.drop_last() =~= e@.attrs.take(i as int));
            assert(t.last() == a@);
        }
        i = i + 1;
    }
    proof {
        assert(e@.attrs.take(e.attrs@.len() as int) =~= e@.attrs);
        assert(out@ =~= o + open_tag(e@, depth as nat));
    }
}

fn write_close_tag(out: &mut String, name: &String)
    ensures
        final(out)@ == old(out)@ + close_tag(name@),
{
    let ghost o = out@;
    push_char(out, '<');
    push_char(out, '/');
    push_str(out, name.as_str());
    push_char(out, '>');
    proof {
        assert(out@ =~= o + close_tag(name@));
    }
}

#[verifier::spinoff_prover]
#[verifier::rlimit(50)]
fn write_element(out: &mut String, e: &Element, depth: usize, nl: &str)
    requires
        depth + height(e@) <= usize::MAX,
    ensures
        final(out)@ == old(out)@ + elem_text(e@, depth as nat, nl@),
    decreases e,
{
    let ghost o = out@;
    let ghost m = e@;
    write_open_tag(out, e, depth);
    if e.children.len() == 0 {
        if e.self_closing {
            push_char(out, '/');
            push_char(out, '>');
        } else {
            push_char(out, '>');
            write_close_tag(out, &e.name);
        }
        proof {
            assert(out@ =~= o + elem_text(m, depth as nat, nl@));
        }
        return ;
    }
    if e.children.len() == 1 {
        if let Node::Text(t) = &e.children[0] {
            push_char(out, '>');
            push_str(out, t.as_str());
            write_close_tag(out, &e.name);
            proof {
                assert(m.children[0] == SNode::Text(t@));
                assert(out@ =~= o + elem_text(m, depth as nat, nl@));
            }
            return ;
        }
    }
    push_char(out, '>');
    push_str(out, nl);
    let ghost head = out@;
    proof {
        lemma_children_height(m, 0);
    }
    let mut i: usize = 0;
    while i < e.children.len()
        invariant
            0 <= i <= e.children@.len(),
            m == e@,
            depth + height(m) <= usize::MAX,
            head + children_text(m, 0, depth as nat, nl@) == out@ + children_text(
                m,
                i as int,
                depth as nat,
                nl@,
            ),
        decreases e.children@.len() - i,
    {
        let ghost before = out@;
        match &e.children[i] {
            Node::Element(c) => {
                proof {
                    assert(m.children[i as int] == SNode::Element(c@));
                    lemma_children_height(m, i as int);
                    lemma_children_height_le(m, 0, i as int);
                }
                write_element(out, c, depth + 1, nl);
            },
            Node::Text(t) => {
                proof {
                    assert(m.children[i as int] == SNode::Text(t@));
                }
                push_str(out, t.as_str());
            },
        }
        push_str(out, nl);
        proof {
            assert(children_text(m, i as int, depth as nat, nl@) == (out@.subrange(
                before.len() as int,
                out@.len() as int,
            )) + children_text(m, i + 1, depth as nat, nl@));
            assert(out@ =~= before + out@.subrange(before.len() as int, out@.len() as int));
        }
        i = i + 1;
    }
    push_tabs(out, depth);
    write_close_tag(out, &e.name);
    proof {
        assert(children_text(m, i as int, depth as nat, nl@) =~= seq![]);
        assert(!(m.children.len() == 1 && m.children[0] is Text));
        assert(out@ =~= o + elem_text(m, depth as nat, nl@));
    }
}

pub proof fn lemma_children_height(e: SElement, i: int)
    requires
        0 <= i < e.children.len(),
    ensures
        e.children[i] is Element ==> height(e.children[i]->Element_0) <= children_height(e, i),
{
}

pub proof fn lemma_children_height_le(e: SElement, i: int, j: int)
    requires
        0 <= i <= j,
    ensures
        children_height(e, j) <= children_height(e, i),
    decreases j - i,
{
    if i < j {
        lemma_children_height_le(e, i + 1, j);
    }
}

// ---------------------------------------------------------------------------
// Parser (specification)
// ---------------------------------------------------------------------------

/// Characters that end a tag or attribute name.
pub open spec fn is_name_stop(c: char) -> bool {
    is_ws(c) || c == '=' || c == '>' || c == '/' || c == '<' || c == '"'
}

pub open spec fn skip_ws(s: Seq<char>, p: int) -> int
    decreases s.len() - p,
{
    if p < 0 || p >= s.len() || !is_ws(s[p]) {
        p
    } else {
        skip_ws(s, p + 1)
    }
}

pub open spec fn name_end(s: Seq<char>, p: int) -> int
    decreases s.len() - p,
{
    if p < 0 || p >= s.len() || is_name_stop(s[p]) {
        p
    } else {
        name_end(s, p + 1)
    }
}

/// The first position `q >= p` where `a b` occurs, or `s.len()`.
pub open spec fn find_pair(s: Seq<char>, p: int, a: char, b: char) -> int
    decreases s.len() - p,
{
    if p < 0 || p + 1 >= s.len() {
        s.len() as int
    } else if s[p] == a && s[p + 1] == b {
        p
    } else {
        find_pair(s, p + 1, a, b)
    }
}

pub proof fn lemma_skip_ws(s: Seq<char>, p: int)
    requires
        0 <= p <= s.len(),
    ensures
        p <= skip_ws(s, p) <= s.len(),
        skip_ws(s, p) < s.len() ==> !is_ws(s[skip_ws(s, p)]),
    decreases s.len() - p,
{
    if p < s.len() && is_ws(s[p]) {
        lemma_skip_ws(s, p + 1);
    }
}

pub proof fn lemma_name_end(s: Seq<char>, p: int)
    requires
        0 <= p <= s.len(),
    ensures
        p <= name_end(s, p) <= s.len(),
    decreases s.len() - p,
{
    if p < s.len() && !is_name_stop(s[p]) {
        lemma_name_end(s, p + 1);
    }
}

pub proof fn lemma_find_pair(s: Seq<char>, p: int, a: char, b: char)
    requires
        0 <= p <= s.len(),
    ensures
        p <= find_pair(s, p, a, b) <= s.len(),
        find_pair(s, p, a, b) < s.len() ==> find_pair(s, p, a, b) + 1 < s.len(),
    decreases s.len() - p,
{
    if p + 1 < s.len() && !(s[p] == a && s[p + 1] == b) {
        lemma_find_pair(s, p + 1, a, b);
    }
}

pub open spec fn with_attr(el: SElement, a: SAttr) -> SElement {
    SElement { attrs: el.attrs.push(a), ..el }
}

pub open spec fn with_child(el: SElement, c: SNode) -> SElement {
    SElement { children: el.children.push(c), ..el }
}

pub open spec fn with_self_closing(el: SElement, b: bool) -> SElement {
    SElement { self_closing: b, ..el }
}

/// Parse an element starting at `p` (at `<`): the element and the position
/// after it, or the position of the error.
pub open spec fn parse_element(s: Seq<char>, p: int) -> core::result::Result<(SElement, int), int>
    decreases s.len() - p, 1int,
{
    if p < 0 || p >= s.len() {
        Err(p)
    } else if starts_at(s, p, seq!['<', '!', '-', '-']) {
        Err(p)
    } else {
        let n0 = p + 1;
        let n1 = name_end(s, n0);
        proof {
            lemma_name_end(s, n0);
        }
        if n1 <= n0 {
            Err(n0)
        } else {
            parse_tag(
                s,
                n1,
                SElement {
                    name: s.subrange(n0, n1),
                    attrs: seq![],
                    children: seq![],
                    self_closing: true,
                },
            )
        }
    }
}

/// The rest of a start tag from `p`: attributes, then `/>` or `>`.
pub open spec fn parse_tag(s: Seq<char>, p: int, el: SElement) -> core::result::Result<
    (SElement, int),
    int,
>
    decreases s.len() - p, 1int,
{
    if p < 0 || p > s.len() {
        Err(p)
    } else {
        let q = skip_ws(s, p);
        if q < p || q >= s.len() {
            Err(q)
        } else if s[q] == '/' {
            if starts_at(s, q, seq!['/', '>']) {
                Ok((with_self_closing(el, true), q + 2))
            } else {
                Err(q)
            }
        } else if s[q] == '>' {
            parse_children(s, q + 1, with_self_closing(el, false))
        } else {
            let n1 = name_end(s, q);
            if n1 <= q {
                Err(q)
            } else {
                let r = skip_ws(s, n1);
                if !(n1 <= r < s.len() && s[r] == '=') {
                    Err(r)
                } else {
                    let r2 = skip_ws(s, r + 1);
                    if !(r < r2 < s.len() && s[r2] == '"') {
                        Err(r2)
                    } else {
                        let e = find_from(s, r2 + 1, '"');
                        if e >= s.len() || e <= r2 {
                            Err(r2 + 1)
                        } else {
                            parse_tag(
                                s,
                                e + 1,
                                with_attr(
                                    el,
                                    SAttr { name: s.subrange(q, n1), value: s.subrange(r2 + 1, e) },
                                ),
                            )
                        }
                    }
                }
            }
        }
    }
}

/// Children of `el` from `p` up to and including its closing tag.
pub open spec fn parse_children(s: Seq<char>, p: int, el: SElement) -> core::result::Result<
    (SElement, int),
    int,
>
    decreases s.len() - p, 2int,
{
    if p < 0 || p > s.len() {
        Err(p)
    } else {
        let u = find_from(s, p, '<');
        if u >= s.len() || u < p {
            Err(p)
        } else {
            let el2 = if u > p && !all_ws(s.subrange(p, u)) {
                with_child(el, SNode::Text(s.subrange(p, u)))
            } else {
                el
            };
            if starts_at(s, u, seq!['<', '/']) {
                let n0 = u + 2;
                let n1 = name_end(s, n0);
                if n1 <= n0 {
                    Err(n0)
                } else if s.subrange(n0, n1) != el2.name {
                    Err(n1)
                } else {
                    let r = skip_ws(s, n1);
                    if n1 <= r < s.len() && s[r] == '>' {
                        Ok((el2, r + 1))
                    } else {
                        Err(r)
                    }
                }
            } else {
                match parse_element(s, u) {
                    Err(q) => Err(q),
                    Ok((c, q)) => if q <= u || q > s.len() {
                        Err(q)
                    } else {
                        parse_children(s, q, with_child(el2, SNode::Element(c)))
                    },
                }
            }
        }
    }
}

/// The document grammar over characters; `crlf` is decided afterwards.
pub open spec fn parse_doc(s: Seq<char>) -> core::result::Result<SDoc, int> {
    let bom = s.len() > 0 && s[0] == '\u{feff}';
    let p0: int = if bom {
        1
    } else {
        0
    };
    let p1 = skip_ws(s, p0);
    let e = find_pair(s, p1, '?', '>');
    if starts_at(s, p1, seq!['<', '?']) && e >= s.len() {
        Err(p1)
    } else {
        let decl: Option<Seq<char>> = if starts_at(s, p1, seq!['<', '?']) {
            Some(s.subrange(p1, e + 2))
        } else {
            None
        };
        let p2 = if starts_at(s, p1, seq!['<', '?']) {
            e + 2
        } else {
            p1
        };
        let p3 = skip_ws(s, p2);
        if !(0 <= p3 < s.len() && s[p3] == '<') {
            Err(p3)
        } else {
            match parse_element(s, p3) {
                Err(q) => Err(q),
                Ok((root, q)) => if !(p3 < q <= s.len()) || !all_ascii_ws(
                    s.subrange(q, s.len() as int),
                ) {
                    Err(q)
                } else {
                    Ok(
                        SDoc {
                            bom,
                            decl,
                            crlf: true,
                            trailing: s.subrange(q, s.len() as int),
                            root,
                        },
                    )
                },
            }
        }
    }
}

/// The line ending convention: CRLF when the first newline follows a `\r`,
/// or when there is no newline at all.
pub open spec fn crlf_of(s: Seq<char>) -> bool {
    let i = find_from(s, 0, '\n');
    if i >= s.len() {
        true
    } else {
        i > 0 && s[i - 1] == '\r'
    }
}

/// Number of `\n` in `s`.
pub open spec fn count_nl(s: Seq<char>) -> nat
    decreases s.len(),
{
    if s.len() == 0 {
        0
    } else {
        count_nl(s.drop_last()) + (if s.last() == '\n' {
            1nat
        } else {
            0nat
        })
    }
}

/// 1-based line of position `p`.
pub open spec fn line_at(s: Seq<char>, p: int) -> nat {
    if p < 0 {
        1
    } else if p > s.len() {
        count_nl(s) + 1
    } else {
        count_nl(s.subrange(0, p)) + 1
    }
}

/// What `XmlDocument::parse` makes of the bytes: the document, or the line
/// of the error (0 for invalid UTF-8).
pub open spec fn xml_parse(bytes: Seq<u8>) -> core::result::Result<SDoc, nat> {
    if !valid_utf8(bytes) {
        Err(0)
    } else {
        let s = decode_utf8(bytes);
        match parse_doc(s) {
            Err(q) => Err(line_at(s, q)),
            Ok(d) => Ok(SDoc { crlf: crlf_of(s), ..d }),
        }
    }
}

// ---------------------------------------------------------------------------
// Parser (implementation)
// ---------------------------------------------------------------------------

fn skip_ws_exec(s: &Vec<char>, p: usize) -> (r: usize)
    requires
        p <= s@.len(),
    ensures
        r == skip_ws(s@, p as int),
        p <= r <= s@.len(),
{
    proof {
        lemma_skip_ws(s@, p as int);
    }
    let mut i = p;
    while i < s.len() && is_whitespace(s[i])
        invariant
            p <= i <= s@.len(),
            skip_ws(s@, p as int) == skip_ws(s@, i as int),
        decreases s@.len() - i,
    {
        i = i + 1;
    }
    i
}

fn is_name_stop_exec(c: char) -> (r: bool)
    ensures
        r == is_name_stop(c),
{
    is_whitespace(c) || c == '=' || c == '>' || c == '/' || c == '<' || c == '"'
}

fn name_end_exec(s: &Vec<char>, p: usize) -> (r: usize)
    requires
        p <= s@.len(),
    ensures
        r == name_end(s@, p as int),
        p <= r <= s@.len(),
{
    proof {
        lemma_name_end(s@, p as int);
    }
    let mut i = p;
    while i < s.len() && !is_name_stop_exec(s[i])
        invariant
            p <= i <= s@.len(),
            name_end(s@, p as int) == name_end(s@, i as int),
        decreases s@.len() - i,
    {
        i = i + 1;
    }
    i
}

fn find_pair_exec(s: &Vec<char>, p: usize, a: char, b: char) -> (r: usize)
    requires
        p <= s@.len(),
    ensures
        r == find_pair(s@, p as int, a, b),
{
    let mut i = p;
    while i < s.len() && i + 1 < s.len()
        invariant
            p <= i <= s@.len(),
            find_pair(s@, p as int, a, b) == find_pair(s@, i as int, a, b),
        decreases s@.len() - i,
    {
        if s[i] == a && s[i + 1] == b {
            return i;
        }
        i = i + 1;
    }
    s.len()
}

fn lit(t: &str) -> (r: Vec<char>)
    ensures
        r@ == t@,
{
    chars_of(t)
}

fn new_element(name: String) -> (e: Element)
    ensures
        e@ == (SElement { name: name@, attrs: seq![], children: seq![], self_closing: true }),
{
    let e = Element { name, attrs: Vec::new(), children: Vec::new(), self_closing: true };
    proof {
        assert(e@.attrs =~= Seq::<SAttr>::empty());
        assert(e@.children =~= Seq::<SNode>::empty());
    }
    e
}

fn push_attr(el: &mut Element, a: Attr)
    ensures
        final(el)@ == with_attr(old(el)@, a@),
{
    let ghost o = el@;
    el.attrs.push(a);
    proof {
        assert(el@.attrs =~= o.attrs.push(a@));
        assert(el@.children =~= o.children);
    }
}

fn push_node(el: &mut Element, n: Node)
    ensures
        final(el)@ == with_child(old(el)@, n@),
{
    let ghost o = el@;
    el.children.push(n);
    proof {
        assert(el@.attrs =~= o.attrs);
        assert(el@.children =~= o.children.push(n@));
    }
}

fn set_self_closing(el: &mut Element, b: bool)
    ensures
        final(el)@ == with_self_closing(old(el)@, b),
{
    let ghost o = el@;
    el.self_closing = b;
    proof {
        assert(el@.attrs =~= o.attrs);
        assert(el@.children =~= o.children);
    }
}

/// An error position and its message.
type PErr = (usize, String);

fn perr(p: usize, msg: &str) -> (r: PErr)
    ensures
        r.0 == p,
{
    (p, string_of(msg))
}

fn parse_element_exec(s: &Vec<char>, p: usize) -> (r: core::result::Result<(Element, usize), PErr>)
    requires
        p <= s@.len(),
    ensures
        match r {
            Ok((e, q)) => parse_element(s@, p as int) == Ok::<(SElement, int), int>((e@, q as int))
                && q <= s@.len(),
            Err((q, _)) => parse_element(s@, p as int) == Err::<(SElement, int), int>(q as int)
                && q <= s@.len(),
        },
    decreases s@.len() - p, 1int,
{
    proof {
        reveal_strlit("<!--");
    }
    if p >= s.len() {
        return Err(perr(p, "unexpected end of file"));
    }
    let cm = lit("<!--");
    assert(cm@ =~= seq!['<', '!', '-', '-']);
    if starts_with_at(s, p, &cm) {
        return Err(perr(p, "comments are not supported in .Loxone documents"));
    }
    let n0 = p + 1;
    let n1 = name_end_exec(s, n0);
    if n1 == n0 {
        return Err(perr(n0, "expected a name"));
    }
    let el = new_element(string_from_range(s, n0, n1));
    parse_tag_exec(s, n1, el)
}

fn parse_tag_exec(s: &Vec<char>, p0: usize, el0: Element) -> (r: core::result::Result<
    (Element, usize),
    PErr,
>)
    requires
        p0 <= s@.len(),
    ensures
        match r {
            Ok((e, q)) => parse_tag(s@, p0 as int, el0@) == Ok::<(SElement, int), int>(
                (e@, q as int),
            ) && q <= s@.len(),
            Err((q, _)) => parse_tag(s@, p0 as int, el0@) == Err::<(SElement, int), int>(q as int)
                && q <= s@.len(),
        },
    decreases s@.len() - p0, 1int,
{
    let mut el = el0;
    let mut p = p0;
    loop
        invariant
            p0 <= p <= s@.len(),
            parse_tag(s@, p0 as int, el0@) == parse_tag(s@, p as int, el@),
        decreases s@.len() - p,
    {
        proof {
            reveal_strlit("/>");
        }
        let q = skip_ws_exec(s, p);
        if q >= s.len() {
            return Err(perr(q, "unexpected end of file inside tag"));
        }
        if s[q] == '/' {
            let sc = lit("/>");
            assert(sc@ =~= seq!['/', '>']);
            if !starts_with_at(s, q, &sc) {
                return Err(perr(q, "expected `/>`"));
            }
            set_self_closing(&mut el, true);
            return Ok((el, q + 2));
        }
        if s[q] == '>' {
            set_self_closing(&mut el, false);
            return parse_children_exec(s, q + 1, el);
        }
        let n1 = name_end_exec(s, q);
        if n1 == q {
            return Err(perr(q, "expected a name"));
        }
        let r = skip_ws_exec(s, n1);
        if !(r < s.len() && s[r] == '=') {
            return Err(perr(r, "expected `=` after attribute name"));
        }
        let r2 = skip_ws_exec(s, r + 1);
        if !(r2 < s.len() && s[r2] == '"') {
            return Err(perr(r2, "expected double-quoted value for attribute"));
        }
        let e = find_char_from(s, r2 + 1, '"');
        proof {
            lemma_find_from(s@, r2 + 1, '"');
        }
        if e >= s.len() {
            return Err(perr(r2 + 1, "unterminated attribute value"));
        }
        let a = Attr { name: string_from_range(s, q, n1), value: string_from_range(s, r2 + 1, e) };
        push_attr(&mut el, a);
        p = e + 1;
    }
}

fn parse_children_exec(s: &Vec<char>, p0: usize, el0: Element) -> (r: core::result::Result<
    (Element, usize),
    PErr,
>)
    requires
        p0 <= s@.len(),
    ensures
        match r {
            Ok((e, q)) => parse_children(s@, p0 as int, el0@) == Ok::<(SElement, int), int>(
                (e@, q as int),
            ) && q <= s@.len(),
            Err((q, _)) => parse_children(s@, p0 as int, el0@) == Err::<(SElement, int), int>(
                q as int,
            ) && q <= s@.len(),
        },
    decreases s@.len() - p0, 2int,
{
    let mut el = el0;
    let mut p = p0;
    loop
        invariant
            p0 <= p <= s@.len(),
            parse_children(s@, p0 as int, el0@) == parse_children(s@, p as int, el@),
        decreases s@.len() - p,
    {
        proof {
            reveal_strlit("</");
        }
        let u = find_char_from(s, p, '<');
        proof {
            lemma_find_from(s@, p as int, '<');
        }
        if u >= s.len() {
            return Err(perr(p, "missing closing tag"));
        }
        if u > p && !range_all_ws(s, p, u) {
            push_node(&mut el, Node::Text(string_from_range(s, p, u)));
        }
        let ct = lit("</");
        assert(ct@ =~= seq!['<', '/']);
        if starts_with_at(s, u, &ct) {
            let n0 = u + 2;
            let n1 = name_end_exec(s, n0);
            if n1 == n0 {
                return Err(perr(n0, "expected a name"));
            }
            let close = string_from_range(s, n0, n1);
            if !str_eq(close.as_str(), el.name.as_str()) {
                return Err(perr(n1, "mismatched closing tag"));
            }
            let r = skip_ws_exec(s, n1);
            if r < s.len() && s[r] == '>' {
                return Ok((el, r + 1));
            }
            return Err(perr(r, "expected `>` after closing tag name"));
        }
        match parse_element_exec(s, u) {
            Err(e) => {
                return Err(e);
            },
            Ok((c, q)) => {
                if q <= u {
                    return Err(perr(q, "element consumed no input"));
                }
                push_node(&mut el, Node::Element(c));
                p = q;
            },
        }
    }
}

fn count_nl_exec(s: &Vec<char>, p: usize) -> (r: usize)
    requires
        p <= s@.len(),
    ensures
        r == count_nl(s@.subrange(0, p as int)),
        r <= p,
{
    let mut i: usize = 0;
    let mut n: usize = 0;
    while i < p
        invariant
            0 <= i <= p <= s@.len(),
            n == count_nl(s@.subrange(0, i as int)),
            n <= i,
        decreases p - i,
    {
        proof {
            assert(s@.subrange(0, i + 1).drop_last() =~= s@.subrange(0, i as int));
        }
        if s[i] == '\n' {
            n = n + 1;
        }
        i = i + 1;
    }
    n
}

/// `std::str::from_utf8`: the decoded text when `bytes` is valid UTF-8,
/// otherwise the decoder's error message.
#[verifier::external_body]
fn utf8_decode(bytes: &[u8]) -> (r: core::result::Result<String, String>)
    ensures
        r is Ok <==> valid_utf8(bytes@),
        r matches Ok(s) ==> s@ == decode_utf8(bytes@),
{
    match std::str::from_utf8(bytes) {
        Ok(s) => Ok(s.to_string()),
        Err(e) => Err(e.to_string()),
    }
}

proof fn lemma_decode_len(bytes: Seq<u8>)
    requires
        valid_utf8(bytes),
    ensures
        decode_utf8(bytes).len() <= bytes.len(),
    decreases bytes.len(),
{
    if bytes.len() != 0 {
        let rest = pop_first_scalar(bytes);
        assert(1 <= length_of_first_scalar(bytes) <= bytes.len());
        assert(rest.len() == bytes.len() - length_of_first_scalar(bytes));
        lemma_decode_len(rest);
    }
}

/// The document grammar over a character vector (`crlf` left at `true`).
fn parse_doc_exec(s: &Vec<char>) -> (r: core::result::Result<XmlDocument, PErr>)
    ensures
        match r {
            Ok(d) => parse_doc(s@) == Ok::<SDoc, int>(d@),
            Err((q, _)) => parse_doc(s@) == Err::<SDoc, int>(q as int) && q <= s@.len(),
        },
{
    let ghost sv = s@;
    let bom = s.len() > 0 && s[0] == '\u{feff}';
    let p0: usize = if bom {
        1
    } else {
        0
    };
    let p1 = skip_ws_exec(s, p0);
    let pi = lit("<?");
    proof {
        reveal_strlit("<?");
    }
    assert(pi@ =~= seq!['<', '?']);
    let mut decl: Option<String> = None;
    let mut p2 = p1;
    let has_decl = starts_with_at(s, p1, &pi);
    if has_decl {
        let e = find_pair_exec(s, p1, '?', '>');
        proof {
            lemma_find_pair(sv, p1 as int, '?', '>');
        }
        if e >= s.len() {
            return Err(perr(p1, "unterminated XML declaration"));
        }
        decl = Some(string_from_range(s, p1, e + 2));
        p2 = e + 2;
    }
    assert((match decl {
        Some(d) => Some(d@),
        None => None::<Seq<char>>,
    }) == (if starts_at(sv, p1 as int, seq!['<', '?']) {
        Some(sv.subrange(p1 as int, find_pair(sv, p1 as int, '?', '>') + 2))
    } else {
        None::<Seq<char>>
    }));
    let p3 = skip_ws_exec(s, p2);
    if !(p3 < s.len() && s[p3] == '<') {
        return Err(perr(p3, "expected root element"));
    }
    let (root, q) = match parse_element_exec(s, p3) {
        Ok(x) => x,
        Err(e) => {
            return Err(e);
        },
    };
    if q <= p3 || !range_all_ascii_ws(s, q, s.len()) {
        return Err(perr(q, "trailing content after root element"));
    }
    let trailing = string_from_range(s, q, s.len());
    Ok(XmlDocument { bom, decl, crlf: true, trailing, root })
}

impl XmlDocument {
    /// Parse a `.Loxone` file.
    pub fn parse(bytes: &[u8]) -> (r: Result<XmlDocument>)
        requires
            bytes@.len() <= isize::MAX,
        ensures
            match r {
                Ok(d) => xml_parse(bytes@) == Ok::<SDoc, nat>(d@),
                Err(e) => e is Xml && xml_parse(bytes@) == Err::<SDoc, nat>(e->Xml_line as nat),
            },
    {
        let text = match utf8_decode(bytes) {
            Ok(t) => t,
            Err(m) => {
                let mut msg = string_of("not valid UTF-8: ");
                push_str(&mut msg, m.as_str());
                return Err(Error::Xml { line: 0, msg });
            },
        };
        let s = chars_of(text.as_str());
        proof {
            lemma_decode_len(bytes@);
        }
        match parse_doc_exec(&s) {
            Err((q, m)) => {
                let line = count_nl_exec(&s, q) + 1;
                Err(Error::Xml { line, msg: m })
            },
            Ok(d) => {
                let i = find_char_from(&s, 0, '\n');
                proof {
                    lemma_find_from(s@, 0, '\n');
                }
                let crlf = if i >= s.len() {
                    true
                } else {
                    i > 0 && s[i - 1] == '\r'
                };
                let mut d = d;
                d.crlf = crlf;
                Ok(d)
            },
        }
    }

    /// The canonical serialization (UTF-8 bytes of [`doc_text`]).
    pub fn to_bytes(&self) -> (r: Vec<u8>)
        requires
            height(self.root@) <= usize::MAX,
        ensures
            r@ == encode_utf8(doc_text(self@)),
    {
        let nl = if self.crlf {
            "\r\n"
        } else {
            "\n"
        };
        proof {
            reveal_strlit("\r\n");
            reveal_strlit("\n");
        }
        assert(nl@ =~= nl_text(self.crlf));
        let mut out = String::new();
        if self.bom {
            push_char(&mut out, '\u{feff}');
        }
        match &self.decl {
            Some(d) => {
                push_str(&mut out, d.as_str());
                push_str(&mut out, nl);
            },
            None => {},
        }
        write_element(&mut out, &self.root, 0, nl);
        push_str(&mut out, self.trailing.as_str());
        proof {
            assert(out@ =~= doc_text(self@));
        }
        out.as_str().as_bytes_vec()
    }
}


} // verus!
