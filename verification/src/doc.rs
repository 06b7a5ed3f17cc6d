//! Semantic read layer over a `.Loxone` document: objects, ports, wires,
//! counters. Everything here is a *view* over the lossless [`crate::xml`]
//! tree — mutations go through the tree so unknown content is never touched.
use crate::entities::unescape_text;
use crate::error::{Error, Result};
use crate::strmap::{map_get, StrMap};
use crate::text::{chars_of, dec, dec_string, lemma_parse_dec, parse_unsigned, parse_unsigned_exec, push_str, str_eq, string_of};
use crate::xml::{
    attr_index, attr_index_from, attr_value, child_elems, lemma_attr_index_from, SAttr, height, lemma_children_height, lemma_children_height_le, set_attr_in, xml_parse, Element, Node, SDoc, SElement, SNode,
    XmlDocument,
};
use vstd::prelude::*;

verus! {

/// The `Next*` counters on the `<ControlList>` root. Loxone Config bumps
/// these on save; they must never decrease.
#[derive(Debug, Clone, Copy, PartialEq, Eq)]
pub struct Counters {
    pub next_obj: u64,
    pub next_const: u64,
    pub next_note: u64,
    pub next_mem: u64,
}

impl Default for Counters {
    fn default() -> (c: Counters)
        ensures
            c.next_obj == 0 && c.next_const == 0 && c.next_note == 0 && c.next_mem == 0,
    {
        Counters { next_obj: 0, next_const: 0, next_note: 0, next_mem: 0 }
    }
}

/// A parsed `.Loxone` document.
#[derive(Debug)]
pub struct LoxoneDoc {
    pub xml: XmlDocument,
}

impl View for LoxoneDoc {
    type V = SDoc;

    open spec fn view(&self) -> SDoc {
        self.xml@
    }
}

/// A counter attribute of the root: its decimal value, or 1 when absent or
/// not a `u64`.
pub open spec fn counter_value(root: SElement, name: Seq<char>) -> u64 {
    match attr_value(root, name) {
        Some(v) => match parse_unsigned(v, false, u64::MAX as int) {
            Some(n) => n as u64,
            None => 1,
        },
        None => 1,
    }
}

/// The root after writing the four counters, in this order.
pub open spec fn with_counters(root: SElement, c: Counters) -> SElement {
    let a1 = set_attr_in(root.attrs, "NextObj"@, dec(c.next_obj as nat));
    let a2 = set_attr_in(a1, "NextConst"@, dec(c.next_const as nat));
    let a3 = set_attr_in(a2, "NextNote"@, dec(c.next_note as nat));
    let a4 = set_attr_in(a3, "NextMem"@, dec(c.next_mem as nat));
    SElement { attrs: a4, ..root }
}

proof fn lemma_attr_index_is(a: Seq<SAttr>, name: Seq<char>, r: int)
    requires
        r == -1 ==> forall|k: int| 0 <= k < a.len() ==> #[trigger] a[k].name != name,
        r != -1 ==> 0 <= r < a.len() && a[r].name == name && forall|k: int| 0 <= k < r ==> #[trigger] a[k].name != name,
    ensures
        attr_index(a, name) == r,
{
    lemma_attr_index_from(a, name, 0);
    let x = attr_index(a, name);
    if x != -1 && r != -1 {
        if x < r {
            assert(a[x].name == name);
        } else if r < x {
            assert(a[r].name == name);
        }
    } else if x == -1 && r != -1 {
        assert(a[r].name == name);
    } else if x != -1 && r == -1 {
        assert(a[x].name == name);
    }
}

proof fn lemma_set_attr_same(e: SElement, name: Seq<char>, v: Seq<char>)
    ensures
        attr_value(SElement { attrs: set_attr_in(e.attrs, name, v), ..e }, name) == Some(v),
{
    let a = e.attrs;
    lemma_attr_index_from(a, name, 0);
    let i = attr_index(a, name);
    let b = set_attr_in(a, name, v);
    if i >= 0 {
        assert forall|k: int| 0 <= k < i implies #[trigger] b[k].name != name by {
            assert(b[k] == a[k]);
        }
        lemma_attr_index_is(b, name, i);
    } else {
        assert forall|k: int| 0 <= k < a.len() implies #[trigger] b[k].name != name by {
            assert(b[k] == a[k]);
        }
        lemma_attr_index_is(b, name, a.len() as int);
    }
}

proof fn lemma_set_attr_other(e: SElement, name: Seq<char>, v: Seq<char>, n: Seq<char>)
    requires
        n != name,
    ensures
        attr_value(SElement { attrs: set_attr_in(e.attrs, name, v), ..e }, n) == attr_value(e, n),
{
    let a = e.attrs;
    lemma_attr_index_from(a, name, 0);
    lemma_attr_index_from(a, n, 0);
    let i = attr_index(a, name);
    let j = attr_index(a, n);
    let b = set_attr_in(a, name, v);
    assert forall|k: int| 0 <= k < a.len() implies #[trigger] b[k].name == a[k].name && (k != i ==> b[k] == a[k]) by {
    }
    if j == -1 {
        assert forall|k: int| 0 <= k < b.len() implies #[trigger] b[k].name != n by {
            if k < a.len() {
                assert(b[k].name == a[k].name);
            }
        }
    } else {
        assert(j != i);
        assert forall|k: int| 0 <= k < j implies #[trigger] b[k].name != n by {
            assert(b[k].name == a[k].name);
        }
        assert(b[j] == a[j]);
    }
    lemma_attr_index_is(b, n, j);
}

/// The four counter attributes of the root.
pub open spec fn is_counter_attr(n: Seq<char>) -> bool {
    n == "NextObj"@ || n == "NextConst"@ || n == "NextNote"@ || n == "NextMem"@
}

/// Writing the counters and reading them back gives the values written;
/// every other attribute, the name and the children stay as they were.
pub proof fn counters_read_back_what_was_written(root: SElement, c: Counters)
    ensures
        counter_value(with_counters(root, c), "NextObj"@) == c.next_obj,
        counter_value(with_counters(root, c), "NextConst"@) == c.next_const,
        counter_value(with_counters(root, c), "NextNote"@) == c.next_note,
        counter_value(with_counters(root, c), "NextMem"@) == c.next_mem,
        forall|n: Seq<char>|
            !is_counter_attr(n) ==> #[trigger] attr_value(with_counters(root, c), n) == attr_value(root, n),
        with_counters(root, c).name == root.name,
        with_counters(root, c).children == root.children,
{
    let e1 = SElement { attrs: set_attr_in(root.attrs, "NextObj"@, dec(c.next_obj as nat)), ..root };
    let e2 = SElement { attrs: set_attr_in(e1.attrs, "NextConst"@, dec(c.next_const as nat)), ..e1 };
    let e3 = SElement { attrs: set_attr_in(e2.attrs, "NextNote"@, dec(c.next_note as nat)), ..e2 };
    let e4 = SElement { attrs: set_attr_in(e3.attrs, "NextMem"@, dec(c.next_mem as nat)), ..e3 };
    assert(e4 == with_counters(root, c));
    reveal_strlit("NextObj");
    reveal_strlit("NextConst");
    reveal_strlit("NextNote");
    reveal_strlit("NextMem");
    assert("NextMem"@[4] != "NextNote"@[4] && "NextConst"@[4] != "NextNote"@[4] && "NextConst"@[4] != "NextMem"@[4]);
    assert("NextObj"@[4] != "NextConst"@[4] && "NextObj"@[4] != "NextNote"@[4] && "NextObj"@[4] != "NextMem"@[4]);
    lemma_set_attr_same(e3, "NextMem"@, dec(c.next_mem as nat));
    lemma_set_attr_same(e2, "NextNote"@, dec(c.next_note as nat));
    lemma_set_attr_other(e3, "NextMem"@, dec(c.next_mem as nat), "NextNote"@);
    lemma_set_attr_same(e1, "NextConst"@, dec(c.next_const as nat));
    lemma_set_attr_other(e2, "NextNote"@, dec(c.next_note as nat), "NextConst"@);
    lemma_set_attr_other(e3, "NextMem"@, dec(c.next_mem as nat), "NextConst"@);
    lemma_set_attr_same(root, "NextObj"@, dec(c.next_obj as nat));
    lemma_set_attr_other(e1, "NextConst"@, dec(c.next_const as nat), "NextObj"@);
    lemma_set_attr_other(e2, "NextNote"@, dec(c.next_note as nat), "NextObj"@);
    lemma_set_attr_other(e3, "NextMem"@, dec(c.next_mem as nat), "NextObj"@);
    lemma_parse_dec(c.next_obj as nat, u64::MAX as int);
    lemma_parse_dec(c.next_const as nat, u64::MAX as int);
    lemma_parse_dec(c.next_note as nat, u64::MAX as int);
    lemma_parse_dec(c.next_mem as nat, u64::MAX as int);
    assert forall|n: Seq<char>| !is_counter_attr(n) implies #[trigger] attr_value(with_counters(root, c), n) == attr_value(root, n) by {
        lemma_set_attr_other(root, "NextObj"@, dec(c.next_obj as nat), n);
        lemma_set_attr_other(e1, "NextConst"@, dec(c.next_const as nat), n);
        lemma_set_attr_other(e2, "NextNote"@, dec(c.next_note as nat), n);
        lemma_set_attr_other(e3, "NextMem"@, dec(c.next_mem as nat), n);
    }
}

/// Whether `e` is the `<C Type="Document">` element.
pub open spec fn is_document(e: SElement) -> bool {
    e.name == "C"@ && attr_value(e, "Type"@) == Some("Document"@)
}

/// Index (among `es`) of the first document element, or -1.
pub open spec fn first_document(es: Seq<SElement>, i: int) -> int
    decreases es.len() - i,
{
    if i < 0 || i >= es.len() {
        -1
    } else if is_document(es[i]) {
        i
    } else {
        first_document(es, i + 1)
    }
}

/// What `LoxoneDoc::parse` makes of the bytes.
pub open spec fn doc_parse(bytes: Seq<u8>) -> core::result::Result<SDoc, ()> {
    match xml_parse(bytes) {
        Ok(d) => if d.root.name == "ControlList"@ {
            Ok(d)
        } else {
            Err(())
        },
        Err(_) => Err(()),
    }
}

fn counter_of(root: &Element, name: &str) -> (r: u64)
    ensures
        r == counter_value(root@, name@),
{
    match root.attr(name) {
        Some(v) => {
            let cs = chars_of(v);
            match parse_unsigned_exec(&cs, false, u64::MAX) {
                Some(n) => n,
                None => 1,
            }
        },
        None => 1,
    }
}

impl LoxoneDoc {
    pub fn parse(bytes: &[u8]) -> (r: Result<LoxoneDoc>)
        requires
            bytes@.len() <= isize::MAX,
        ensures
            match r {
                Ok(d) => doc_parse(bytes@) == Ok::<SDoc, ()>(d@),
                Err(e) => doc_parse(bytes@) is Err && match xml_parse(bytes@) {
                    Err(line) => e is Xml && e->Xml_line == line,
                    Ok(d) => e matches Error::Structure(m) && m@ == "expected <ControlList> root, found <"@
                        + d.root.name + ">"@,
                },
            },
    {
        let xml = XmlDocument::parse(bytes)?;
        if !str_eq(xml.root.name.as_str(), "ControlList") {
            let mut msg = string_of("expected <ControlList> root, found <");
            push_str(&mut msg, xml.root.name.as_str());
            push_str(&mut msg, ">");
            return Err(Error::Structure(msg));
        }
        Ok(LoxoneDoc { xml })
    }

    pub fn to_bytes(&self) -> (r: Vec<u8>)
        requires
            height(self.xml.root@) <= usize::MAX,
        ensures
            r@ == vstd::utf8::encode_utf8(crate::xml::doc_text(self@)),
    {
        self.xml.to_bytes()
    }

    pub fn counters(&self) -> (c: Counters)
        ensures
            c.next_obj == counter_value(self@.root, "NextObj"@),
            c.next_const == counter_value(self@.root, "NextConst"@),
            c.next_note == counter_value(self@.root, "NextNote"@),
            c.next_mem == counter_value(self@.root, "NextMem"@),
    {
        Counters {
            next_obj: counter_of(&self.xml.root, "NextObj"),
            next_const: counter_of(&self.xml.root, "NextConst"),
            next_note: counter_of(&self.xml.root, "NextNote"),
            next_mem: counter_of(&self.xml.root, "NextMem"),
        }
    }

    pub fn set_counters(&mut self, c: Counters)
        ensures
            final(self)@ == (SDoc { root: with_counters(old(self)@.root, c), ..old(self)@ }),
    {
        let root = &mut self.xml.root;
        root.set_attr_raw("NextObj", dec_string(c.next_obj).as_str());
        root.set_attr_raw("NextConst", dec_string(c.next_const).as_str());
        root.set_attr_raw("NextNote", dec_string(c.next_note).as_str());
        root.set_attr_raw("NextMem", dec_string(c.next_mem).as_str());
    }

    /// The `<C Type="Document">` element.
    pub fn document(&self) -> (r: Option<&Element>)
        ensures
            ({
                let es = child_elems(self@.root.children);
                let i = first_document(es, 0);
                match r {
                    Some(e) => i >= 0 && e@ == es[i],
                    None => i == -1,
                }
            }),
    {
        let es = self.xml.root.child_elements();
        let ghost sv = es@.map_values(|e: &Element| e@);
        let mut i: usize = 0;
        while i < es.len()
            invariant
                0 <= i <= es@.len(),
                sv == es@.map_values(|e: &Element| e@),
                sv == child_elems(self@.root.children),
                first_document(sv, 0) == first_document(sv, i as int),
            decreases es@.len() - i,
        {
            let e = es[i];
            assert(sv[i as int] == e@);
            let is_doc = str_eq(e.name.as_str(), "C") && match e.attr("Type") {
                Some(t) => str_eq(t, "Document"),
                None => false,
            };
            if is_doc {
                return Some(e);
            }
            i = i + 1;
        }
        None
    }

    /// `ConfigVersion` of the document (e.g. `"17010727"`), decoded.
    pub fn config_version(&self) -> (r: Option<String>)
        ensures
            ({
                let es = child_elems(self@.root.children);
                let i = first_document(es, 0);
                match r {
                    Some(v) => i >= 0 && (attr_value(es[i], "ConfigVersion"@) matches Some(raw)
                        && v@ == unescape_text(raw)),
                    None => i == -1 || attr_value(es[i], "ConfigVersion"@) is None,
                }
            }),
    {
        match self.document() {
            Some(d) => d.attr_decoded("ConfigVersion"),
            None => None,
        }
    }
}

/// One `<C>` object, summarized. `path` addresses the element inside the
/// XML tree (child indexes from the root, counting all nodes).
#[derive(Debug, Clone, PartialEq, Eq)]
pub struct ObjectSummary {
    pub path: Vec<usize>,
    pub uuid: String,
    pub block_type: String,
    pub title: Option<String>,
    pub iname: Option<String>,
}

pub struct SObject {
    pub path: Seq<usize>,
    pub uuid: Seq<char>,
    pub block_type: Seq<char>,
    pub title: Option<Seq<char>>,
    pub iname: Option<Seq<char>>,
}

pub open spec fn opt_view(o: Option<String>) -> Option<Seq<char>> {
    match o {
        Some(s) => Some(s@),
        None => None,
    }
}

impl View for ObjectSummary {
    type V = SObject;

    open spec fn view(&self) -> SObject {
        SObject {
            path: self.path@,
            uuid: self.uuid@,
            block_type: self.block_type@,
            title: opt_view(self.title),
            iname: opt_view(self.iname),
        }
    }
}

/// One `<Co>` connector of a block.
#[derive(Debug, Clone, PartialEq, Eq)]
pub struct PortView {
    pub key: String,
    pub uuid: String,
    /// Decoded `Def=` value (a parameter default), if present.
    pub def: Option<String>,
    /// Source port UUIDs of incoming wires (`<In Input=…/>` children).
    pub inputs: Vec<String>,
}

pub struct SPort {
    pub key: Seq<char>,
    pub uuid: Seq<char>,
    pub def: Option<Seq<char>>,
    pub inputs: Seq<Seq<char>>,
}

impl View for PortView {
    type V = SPort;

    open spec fn view(&self) -> SPort {
        SPort {
            key: self.key@,
            uuid: self.uuid@,
            def: opt_view(self.def),
            inputs: self.inputs@.map_values(|s: String| s@),
        }
    }
}

/// A resolved wire: source and sink port UUIDs.
#[derive(Debug, Clone, PartialEq, Eq, PartialOrd, Ord)]
pub struct WireView {
    pub from_port: String,
    pub to_port: String,
}

impl View for WireView {
    type V = (Seq<char>, Seq<char>);

    open spec fn view(&self) -> (Seq<char>, Seq<char>) {
        (self.from_port@, self.to_port@)
    }
}

/// The decoded value of an attribute.
pub open spec fn attr_decoded_value(e: SElement, name: Seq<char>) -> Option<Seq<char>> {
    match attr_value(e, name) {
        Some(v) => Some(unescape_text(v)),
        None => None,
    }
}

/// The summary of `c` at `path`, when it is a `<C>` with `Type` and `U`.
pub open spec fn object_here(c: SElement, path: Seq<usize>) -> Seq<(SObject, SElement)> {
    if c.name == "C"@ && attr_value(c, "Type"@) is Some && attr_value(c, "U"@) is Some {
        seq![
            (
                SObject {
                    path,
                    uuid: attr_value(c, "U"@)->0,
                    block_type: attr_value(c, "Type"@)->0,
                    title: attr_decoded_value(c, "Title"@),
                    iname: attr_decoded_value(c, "IName"@),
                },
                c,
            ),
        ]
    } else {
        seq![]
    }
}

/// All objects below `e` (whose own path is `path`), depth first in
/// document order, each with its element.
pub open spec fn objects_in(e: SElement, path: Seq<usize>) -> Seq<(SObject, SElement)>
    decreases e, e.children.len() + 1,
{
    objects_from(e, path, 0)
}

pub open spec fn objects_from(e: SElement, path: Seq<usize>, i: int) -> Seq<(SObject, SElement)>
    decreases e, e.children.len() - i,
{
    if i < 0 || i >= e.children.len() {
        seq![]
    } else {
        match e.children[i] {
            SNode::Element(c) => {
                let p = path.push(i as usize);
                object_here(c, p) + objects_in(c, p) + objects_from(e, path, i + 1)
            },
            SNode::Text(_) => objects_from(e, path, i + 1),
        }
    }
}

/// The input sources of a connector: `Input` of each `<In>` child.
pub open spec fn inputs_of(es: Seq<SElement>) -> Seq<Seq<char>>
    decreases es.len(),
{
    if es.len() == 0 {
        seq![]
    } else {
        let e = es.last();
        if e.name == "In"@ && attr_value(e, "Input"@) is Some {
            inputs_of(es.drop_last()).push(attr_value(e, "Input"@)->0)
        } else {
            inputs_of(es.drop_last())
        }
    }
}

/// The port a `<Co>` element describes, when it has `K` and `U`.
pub open spec fn port_of(co: SElement) -> Option<SPort> {
    if co.name == "Co"@ && attr_value(co, "K"@) is Some && attr_value(co, "U"@) is Some {
        Some(
            SPort {
                key: attr_decoded_value(co, "K"@)->0,
                uuid: attr_value(co, "U"@)->0,
                def: attr_decoded_value(co, "Def"@),
                inputs: inputs_of(child_elems(co.children)),
            },
        )
    } else {
        None
    }
}

pub open spec fn ports_of(es: Seq<SElement>) -> Seq<SPort>
    decreases es.len(),
{
    if es.len() == 0 {
        seq![]
    } else {
        match port_of(es.last()) {
            Some(p) => ports_of(es.drop_last()).push(p),
            None => ports_of(es.drop_last()),
        }
    }
}

/// The `<Co>` connectors of a block element.
pub open spec fn ports_spec(el: SElement) -> Seq<SPort> {
    ports_of(child_elems(el.children))
}

/// Wires into one port: (source, sink) pairs.
pub open spec fn port_wires(p: SPort) -> Seq<(Seq<char>, Seq<char>)> {
    p.inputs.map_values(|s: Seq<char>| (s, p.uuid))
}

pub open spec fn ports_wires(ps: Seq<SPort>) -> Seq<(Seq<char>, Seq<char>)>
    decreases ps.len(),
{
    if ps.len() == 0 {
        seq![]
    } else {
        ports_wires(ps.drop_last()) + port_wires(ps.last())
    }
}

pub open spec fn objects_wires(objs: Seq<(SObject, SElement)>) -> Seq<(Seq<char>, Seq<char>)>
    decreases objs.len(),
{
    if objs.len() == 0 {
        seq![]
    } else {
        objects_wires(objs.drop_last()) + ports_wires(ports_spec(objs.last().1))
    }
}

/// The element at a child-index path below `e`.
pub open spec fn element_at_spec(e: SElement, path: Seq<usize>) -> Option<SElement>
    decreases path.len(),
{
    if path.len() == 0 {
        Some(e)
    } else {
        let i = path[0] as int;
        if i < e.children.len() {
            match e.children[i] {
                SNode::Element(c) => element_at_spec(c, path.drop_first()),
                SNode::Text(_) => None,
            }
        } else {
            None
        }
    }
}

/// Whether an object is the page `page_path` looks for.
pub open spec fn is_page_for(o: SObject, title: Option<Seq<char>>) -> bool {
    o.block_type == "Page"@ && match title {
        Some(t) => o.title == Some(t),
        None => true,
    }
}

pub open spec fn first_page(objs: Seq<(SObject, SElement)>, title: Option<Seq<char>>, i: int) -> int
    decreases objs.len() - i,
{
    if i < 0 || i >= objs.len() {
        -1
    } else if is_page_for(objs[i].0, title) {
        i
    } else {
        first_page(objs, title, i + 1)
    }
}

pub open spec fn objects_view(s: Seq<ObjectSummary>, e: Seq<&Element>) -> Seq<(SObject, SElement)> {
    Seq::new(s.len(), |i: int| (s[i]@, e[i]@))
}

fn copy_path(v: &Vec<usize>) -> (r: Vec<usize>)
    ensures
        r@ == v@,
{
    let r = v.clone();
    assert(r@ =~= v@);
    r
}

fn opt_str_eq(a: &Option<String>, b: &str) -> (r: bool)
    ensures
        r == (opt_view(*a) == Some(b@)),
{
    match a {
        Some(x) => str_eq(x.as_str(), b),
        None => false,
    }
}

fn collect_objects<'a>(
    el: &'a Element,
    path: &mut Vec<usize>,
    out: &mut Vec<ObjectSummary>,
    els: &mut Vec<&'a Element>,
)
    requires
        old(out)@.len() == old(els)@.len(),
    ensures
        final(path)@ == old(path)@,
        final(out)@.len() == final(els)@.len(),
        objects_view(final(out)@, final(els)@) == objects_view(old(out)@, old(els)@) + objects_in(
            el@,
            old(path)@,
        ),
    decreases el,
{
    let ghost p0 = path@;
    let ghost o0 = objects_view(out@, els@);
    let ghost m = el@;
    let mut i: usize = 0;
    assert(o0 + objects_from(m, p0, 0) =~= o0 + objects_in(m, p0));
    while i < el.children.len()
        invariant
            0 <= i <= el.children@.len(),
            m == el@,
            m.children.len() == el.children@.len(),
            path@ == p0,
            out@.len() == els@.len(),
            objects_view(out@, els@) + objects_from(m, p0, i as int) == o0 + objects_in(m, p0),
        decreases el.children@.len() - i,
    {
        let ghost before = objects_view(out@, els@);
        assert(m.children[i as int] == el.children@[i as int]@);
        match &el.children[i] {
            Node::Element(child) => {
                path.push(i);
                let ghost p = path@;
                assert(p == p0.push(i as usize));
                if str_eq(child.name.as_str(), "C") {
                    match (child.attr("Type"), child.attr("U")) {
                        (Some(ty), Some(uuid)) => {
                            let s = ObjectSummary {
                                path: copy_path(path),
                                uuid: string_of(uuid),
                                block_type: string_of(ty),
                                title: child.attr_decoded("Title"),
                                iname: child.attr_decoded("IName"),
                            };
                            out.push(s);
                            els.push(child);
                        },
                        _ => {},
                    }
                }
                assert(objects_view(out@, els@) =~= before + object_here(child@, p));
                collect_objects(child, path, out, els);
                path.pop();
                proof {
                    assert(objects_from(m, p0, i as int) == object_here(child@, p) + objects_in(child@, p)
                        + objects_from(m, p0, i + 1));
                    assert(objects_view(out@, els@) + objects_from(m, p0, i + 1) =~= before
                        + objects_from(m, p0, i as int));
                }
            },
            Node::Text(_) => {},
        }
        i = i + 1;
    }
    assert(objects_view(out@, els@) =~= o0 + objects_in(m, p0));
}

fn inputs_exec(co: &Element) -> (r: Vec<String>)
    ensures
        r@.map_values(|s: String| s@) == inputs_of(child_elems(co@.children)),
{
    let es = co.child_elements();
    let ghost sv = es@.map_values(|e: &Element| e@);
    let mut out: Vec<String> = Vec::new();
    let mut i: usize = 0;
    while i < es.len()
        invariant
            0 <= i <= es@.len(),
            sv == es@.map_values(|e: &Element| e@),
            sv == child_elems(co@.children),
            out@.map_values(|s: String| s@) == inputs_of(sv.take(i as int)),
        decreases es@.len() - i,
    {
        let e = es[i];
        proof {
            assert(sv.take(i + 1).drop_last() =~= sv.take(i as int));
            assert(sv.take(i + 1).last() == e@);
        }
        let ghost before = out@;
        if str_eq(e.name.as_str(), "In") {
            match e.attr("Input") {
                Some(v) => {
                    out.push(string_of(v));
                    assert(out@.map_values(|s: String| s@) =~= before.map_values(|s: String| s@).push(v@));
                },
                None => {},
            }
        }
        i = i + 1;
    }
    assert(sv.take(sv.len() as int) =~= sv);
    out
}

fn port_exec(co: &Element) -> (r: Option<PortView>)
    ensures
        match r {
            Some(p) => port_of(co@) == Some(p@),
            None => port_of(co@) is None,
        },
{
    if !str_eq(co.name.as_str(), "Co") {
        return None;
    }
    let key = match co.attr_decoded("K") {
        Some(k) => k,
        None => {
            return None;
        },
    };
    let uuid = match co.attr("U") {
        Some(u) => string_of(u),
        None => {
            return None;
        },
    };
    Some(PortView { key, uuid, def: co.attr_decoded("Def"), inputs: inputs_exec(co) })
}

/// The `<Co>` connectors of a block element.
pub fn ports(el: &Element) -> (r: Vec<PortView>)
    ensures
        r@.map_values(|p: PortView| p@) == ports_spec(el@),
{
    let es = el.child_elements();
    let ghost sv = es@.map_values(|e: &Element| e@);
    let mut out: Vec<PortView> = Vec::new();
    let mut i: usize = 0;
    while i < es.len()
        invariant
            0 <= i <= es@.len(),
            sv == es@.map_values(|e: &Element| e@),
            sv == child_elems(el@.children),
            out@.map_values(|p: PortView| p@) == ports_of(sv.take(i as int)),
        decreases es@.len() - i,
    {
        let e = es[i];
        proof {
            assert(sv.take(i + 1).drop_last() =~= sv.take(i as int));
            assert(sv.take(i + 1).last() == e@);
        }
        let ghost before = out@;
        match port_exec(e) {
            Some(p) => {
                let ghost pv = p@;
                out.push(p);
                assert(out@.map_values(|p: PortView| p@) =~= before.map_values(|p: PortView| p@).push(pv));
            },
            None => {},
        }
        i = i + 1;
    }
    assert(sv.take(sv.len() as int) =~= sv);
    out
}

impl LoxoneDoc {
    pub(crate) fn object_entries(&self) -> (r: (Vec<ObjectSummary>, Vec<&Element>))
        ensures
            r.0@.len() == r.1@.len(),
            objects_view(r.0@, r.1@) == objects_in(self@.root, seq![]),
    {
        let mut out: Vec<ObjectSummary> = Vec::new();
        let mut els: Vec<&Element> = Vec::new();
        let mut path: Vec<usize> = Vec::new();
        assert(objects_view(out@, els@) =~= Seq::<(SObject, SElement)>::empty());
        collect_objects(&self.xml.root, &mut path, &mut out, &mut els);
        assert(path@ =~= Seq::<usize>::empty());
        assert(objects_view(out@, els@) =~= objects_in(self@.root, seq![]));
        (out, els)
    }

    /// All `<C>` objects in document order (recursive).
    pub fn objects(&self) -> (r: Vec<ObjectSummary>)
        ensures
            r@.map_values(|o: ObjectSummary| o@) == objects_in(self@.root, seq![]).map_values(
                |p: (SObject, SElement)| p.0,
            ),
    {
        let (out, els) = self.object_entries();
        assert(out@.map_values(|o: ObjectSummary| o@) =~= objects_view(out@, els@).map_values(
            |p: (SObject, SElement)| p.0,
        ));
        out
    }
}

/// Lookup tables built in one pass over the document.
#[derive(Debug)]
pub struct DocIndex {
    /// Object UUID → path of its `<C>` element.
    pub by_uuid: StrMap<Vec<usize>>,
    /// Port UUID → (owner object UUID, port key).
    pub port_owner: StrMap<(String, String)>,
}

/// The value a key last received in a sequence of assignments.
pub open spec fn last_assigned<V>(s: Seq<(Seq<char>, V)>, k: Seq<char>) -> Option<V>
    decreases s.len(),
{
    if s.len() == 0 {
        None
    } else if s.last().0 == k {
        Some(s.last().1)
    } else {
        last_assigned(s.drop_last(), k)
    }
}

/// `uuid → path` assignments, one per object.
pub open spec fn uuid_assignments(objs: Seq<(SObject, SElement)>) -> Seq<(Seq<char>, Seq<usize>)> {
    objs.map_values(|p: (SObject, SElement)| (p.0.uuid, p.0.path))
}

/// `port uuid → (object uuid, key)` assignments of one object.
pub open spec fn owner_assignments_of(o: SObject, ps: Seq<SPort>) -> Seq<
    (Seq<char>, (Seq<char>, Seq<char>)),
> {
    ps.map_values(|p: SPort| (p.uuid, (o.uuid, p.key)))
}

pub open spec fn owner_assignments(objs: Seq<(SObject, SElement)>) -> Seq<
    (Seq<char>, (Seq<char>, Seq<char>)),
>
    decreases objs.len(),
{
    if objs.len() == 0 {
        seq![]
    } else {
        owner_assignments(objs.drop_last()) + owner_assignments_of(
            objs.last().0,
            ports_spec(objs.last().1),
        )
    }
}

impl LoxoneDoc {
    /// The element at a child-index path from the root.
    pub fn element_at(&self, path: &[usize]) -> (r: Option<&Element>)
        ensures
            match r {
                Some(e) => element_at_spec(self@.root, path@) == Some(e@),
                None => element_at_spec(self@.root, path@) is None,
            },
    {
        let mut cur = &self.xml.root;
        let mut k: usize = 0;
        assert(path@.skip(0) =~= path@);
        while k < path.len()
            invariant
                0 <= k <= path@.len(),
                element_at_spec(self@.root, path@) == element_at_spec(cur@, path@.skip(k as int)),
            decreases path@.len() - k,
        {
            let i = path[k];
            proof {
                assert(path@.skip(k as int)[0] == path@[k as int]);
                assert(path@.skip(k as int).drop_first() =~= path@.skip(k + 1));
            }
            if i >= cur.children.len() {
                return None;
            }
            assert(cur@.children[i as int] == cur.children@[i as int]@);
            match &cur.children[i] {
                Node::Element(e) => {
                    cur = e;
                },
                Node::Text(_) => {
                    return None;
                },
            }
            k = k + 1;
        }
        assert(path@.skip(k as int) =~= Seq::<usize>::empty());
        Some(cur)
    }

    /// Build the UUID lookup tables.
    pub fn index(&self) -> (r: DocIndex)
        ensures
            ({
                let objs = objects_in(self@.root, seq![]);
                &&& forall|k: Seq<char>|
                    match #[trigger] map_get(r.by_uuid@, k) {
                        Some(v) => last_assigned(uuid_assignments(objs), k) == Some(v@),
                        None => last_assigned(uuid_assignments(objs), k) is None,
                    }
                &&& forall|k: Seq<char>|
                    match #[trigger] map_get(r.port_owner@, k) {
                        Some(v) => last_assigned(owner_assignments(objs), k) == Some(
                            (v.0@, v.1@),
                        ),
                        None => last_assigned(owner_assignments(objs), k) is None,
                    }
            }),
    {
        let (objs, els) = self.object_entries();
        let ghost ov = objects_view(objs@, els@);
        let mut by_uuid: StrMap<Vec<usize>> = StrMap::new();
        let mut port_owner: StrMap<(String, String)> = StrMap::new();
        let mut i: usize = 0;
        while i < objs.len()
            invariant
                0 <= i <= objs@.len(),
                objs@.len() == els@.len(),
                ov == objects_view(objs@, els@),
                forall|k: Seq<char>|
                    match #[trigger] map_get(by_uuid@, k) {
                        Some(v) => last_assigned(uuid_assignments(ov.take(i as int)), k) == Some(
                            v@,
                        ),
                        None => last_assigned(uuid_assignments(ov.take(i as int)), k) is None,
                    },
                forall|k: Seq<char>|
                    match #[trigger] map_get(port_owner@, k) {
                        Some(v) => last_assigned(owner_assignments(ov.take(i as int)), k) == Some(
                            (v.0@, v.1@),
                        ),
                        None => last_assigned(owner_assignments(ov.take(i as int)), k) is None,
                    },
            decreases objs@.len() - i,
        {
            let obj = &objs[i];
            let el = els[i];
            let ps = ports(el);
            let ghost pv = ps@.map_values(|p: PortView| p@);
            let ghost base = owner_assignments(ov.take(i as int));
            proof {
                assert(ov[i as int] == (obj@, el@));
                assert(ov.take(i + 1).drop_last() =~= ov.take(i as int));
                assert(owner_assignments(ov.take(i + 1)) == base + owner_assignments_of(obj@, pv));
            }
            let mut j: usize = 0;
            while j < ps.len()
                invariant
                    0 <= j <= ps@.len(),
                    pv == ps@.map_values(|p: PortView| p@),
                    forall|k: Seq<char>|
                        match #[trigger] map_get(port_owner@, k) {
                            Some(v) => last_assigned(
                                base + owner_assignments_of(obj@, pv.take(j as int)),
                                k,
                            ) == Some((v.0@, v.1@)),
                            None => last_assigned(
                                base + owner_assignments_of(obj@, pv.take(j as int)),
                                k,
                            ) is None,
                        },
                decreases ps@.len() - j,
            {
                let port = &ps[j];
                let ghost prev = base + owner_assignments_of(obj@, pv.take(j as int));
                let ghost next = base + owner_assignments_of(obj@, pv.take(j + 1));
                proof {
                    assert(pv[j as int] == port@);
                    assert(next.drop_last() =~= prev);
                    assert(next.last() == (port@.uuid, (obj@.uuid, port@.key)));
                }
                port_owner.insert(
                    string_of(port.uuid.as_str()),
                    (string_of(obj.uuid.as_str()), string_of(port.key.as_str())),
                );
                j = j + 1;
            }
            proof {
                assert(pv.take(pv.len() as int) =~= pv);
            }
            let ghost ua = uuid_assignments(ov.take(i + 1));
            proof {
                assert(ua.drop_last() =~= uuid_assignments(ov.take(i as int)));
                assert(ua.last() == (obj@.uuid, obj@.path));
            }
            by_uuid.insert(string_of(obj.uuid.as_str()), copy_path(&obj.path));
            i = i + 1;
        }
        proof {
            assert(ov.take(ov.len() as int) =~= ov);
        }
        DocIndex { by_uuid, port_owner }
    }

    /// All wires in the document, as (source port, sink port) UUID pairs.
    pub fn wires(&self) -> (r: Vec<WireView>)
        ensures
            r@.map_values(|w: WireView| w@) == objects_wires(objects_in(self@.root, seq![])),
    {
        let (objs, els) = self.object_entries();
        let ghost ov = objects_view(objs@, els@);
        let mut out: Vec<WireView> = Vec::new();
        let mut i: usize = 0;
        while i < els.len()
            invariant
                0 <= i <= els@.len(),
                objs@.len() == els@.len(),
                ov == objects_view(objs@, els@),
                out@.map_values(|w: WireView| w@) == objects_wires(ov.take(i as int)),
            decreases els@.len() - i,
        {
            let ps = ports(els[i]);
            let ghost pv = ps@.map_values(|p: PortView| p@);
            let ghost base = objects_wires(ov.take(i as int));
            proof {
                assert(ov.take(i + 1).drop_last() =~= ov.take(i as int));
                assert(ov.take(i + 1).last().1 == els@[i as int]@);
            }
            let mut j: usize = 0;
            while j < ps.len()
                invariant
                    0 <= j <= ps@.len(),
                    pv == ps@.map_values(|p: PortView| p@),
                    out@.map_values(|w: WireView| w@) == base + ports_wires(pv.take(j as int)),
                decreases ps@.len() - j,
            {
                let port = &ps[j];
                let ghost pw = port_wires(port@);
                let ghost start = out@.map_values(|w: WireView| w@);
                let mut k: usize = 0;
                while k < port.inputs.len()
                    invariant
                        0 <= k <= port.inputs@.len(),
                        pw == port_wires(port@),
                        out@.map_values(|w: WireView| w@) == start + pw.take(k as int),
                    decreases port.inputs@.len() - k,
                {
                    let ghost before = out@;
                    out.push(
                        WireView {
                            from_port: string_of(port.inputs[k].as_str()),
                            to_port: string_of(port.uuid.as_str()),
                        },
                    );
                    proof {
                        assert(pw[k as int] == (port.inputs@[k as int]@, port.uuid@));
                        assert(out@.map_values(|w: WireView| w@) =~= before.map_values(
                            |w: WireView| w@,
                        ).push(pw[k as int]));
                        assert(pw.take(k + 1) =~= pw.take(k as int).push(pw[k as int]));
                        assert(out@.map_values(|w: WireView| w@) =~= start + pw.take(k + 1));
                    }
                    k = k + 1;
                }
                proof {
                    assert(pw.take(pw.len() as int) =~= pw);
                    assert(pv.take(j + 1).drop_last() =~= pv.take(j as int));
                    assert(pv[j as int] == port@);
                    assert(out@.map_values(|w: WireView| w@) =~= base + ports_wires(pv.take(j + 1)));
                }
                j = j + 1;
            }
            proof {
                assert(pv.take(pv.len() as int) =~= pv);
            }
            i = i + 1;
        }
        proof {
            assert(ov.take(ov.len() as int) =~= ov);
        }
        out
    }

    /// The `<C Type="Page">` element to place blocks on: by title when given,
    /// otherwise the first page in the document.
    pub fn page_path(&self, title: Option<&str>) -> (r: Option<Vec<usize>>)
        ensures
            ({
                let objs = objects_in(self@.root, seq![]);
                let t = match title {
                    Some(t) => Some(t@),
                    None => None,
                };
                let i = first_page(objs, t, 0);
                match r {
                    Some(p) => i >= 0 && p@ == objs[i].0.path,
                    None => i == -1,
                }
            }),
    {
        let (objs, els) = self.object_entries();
        let ghost ov = objects_view(objs@, els@);
        let ghost t = match title {
            Some(t) => Some(t@),
            None => None,
        };
        let mut i: usize = 0;
        while i < objs.len()
            invariant
                0 <= i <= objs@.len(),
                objs@.len() == els@.len(),
                ov == objects_view(objs@, els@),
                ov == objects_in(self@.root, seq![]),
                t == (match title {
                    Some(t) => Some(t@),
                    None => None,
                }),
                first_page(ov, t, 0) == first_page(ov, t, i as int),
            decreases objs@.len() - i,
        {
            let o = &objs[i];
            assert(ov[i as int].0 == o@);
            let hit = str_eq(o.block_type.as_str(), "Page") && match title {
                Some(tt) => opt_str_eq(&o.title, tt),
                None => true,
            };
            assert(hit == is_page_for(o@, t));
            if hit {
                return Some(copy_path(&o.path));
            }
            i = i + 1;
        }
        None
    }
}


/// Whether `n` is the `<C>` object with UUID `u`.
pub open spec fn is_object_with(n: SNode, u: Seq<char>) -> bool {
    n matches SNode::Element(c) && c.name == "C"@ && attr_value(c, "U"@) == Some(u)
}

pub open spec fn direct_index(ch: Seq<SNode>, u: Seq<char>, i: int) -> int
    decreases ch.len() - i,
{
    if i < 0 || i >= ch.len() {
        -1
    } else if is_object_with(ch[i], u) {
        i
    } else {
        direct_index(ch, u, i + 1)
    }
}

/// Removing the object with UUID `u` from below `e`: the new element and
/// the removed one. A direct child is preferred; otherwise the children are
/// searched depth first, in order. An element emptied by the removal becomes
/// self-closing.
pub open spec fn remove_obj(e: SElement, u: Seq<char>) -> (SElement, Option<SElement>)
    decreases e, e.children.len() + 1,
{
    let i = direct_index(e.children, u, 0);
    if 0 <= i < e.children.len() {
        let ch = e.children.remove(i);
        (
            SElement {
                children: ch,
                self_closing: if ch.len() == 0 {
                    true
                } else {
                    e.self_closing
                },
                ..e
            },
            match e.children[i] {
                SNode::Element(c) => Some(c),
                SNode::Text(_) => None,
            },
        )
    } else {
        remove_in(e, u, 0)
    }
}

pub open spec fn remove_in(e: SElement, u: Seq<char>, j: int) -> (SElement, Option<SElement>)
    decreases e, e.children.len() - j,
{
    if j < 0 || j >= e.children.len() {
        (e, None)
    } else {
        match e.children[j] {
            SNode::Element(c) => {
                let (c2, r) = remove_obj(c, u);
                if r is Some {
                    (SElement { children: e.children.update(j, SNode::Element(c2)), ..e }, r)
                } else {
                    remove_in(e, u, j + 1)
                }
            },
            SNode::Text(_) => remove_in(e, u, j + 1),
        }
    }
}

proof fn lemma_direct_index(ch: Seq<SNode>, u: Seq<char>, i: int)
    requires
        0 <= i,
    ensures
        direct_index(ch, u, i) == -1 || (i <= direct_index(ch, u, i) < ch.len() && is_object_with(
            ch[direct_index(ch, u, i)],
            u,
        )),
    decreases ch.len() - i,
{
    if i < ch.len() && !is_object_with(ch[i], u) {
        lemma_direct_index(ch, u, i + 1);
    }
}

proof fn lemma_remove_none(e: SElement, u: Seq<char>)
    ensures
        remove_obj(e, u).1 is None ==> remove_obj(e, u).0 == e,
    decreases e, e.children.len() + 1,
{
    lemma_direct_index(e.children, u, 0);
    let i = direct_index(e.children, u, 0);
    if !(0 <= i < e.children.len()) {
        lemma_remove_in_none(e, u, 0);
    }
}

proof fn lemma_remove_in_none(e: SElement, u: Seq<char>, j: int)
    ensures
        remove_in(e, u, j).1 is None ==> remove_in(e, u, j).0 == e,
    decreases e, e.children.len() - j,
{
    if 0 <= j < e.children.len() {
        match e.children[j] {
            SNode::Element(c) => {
                lemma_remove_none(c, u);
                lemma_remove_in_none(e, u, j + 1);
            },
            SNode::Text(_) => {
                lemma_remove_in_none(e, u, j + 1);
            },
        }
    }
}

fn is_object_with_exec(n: &Node, uuid: &str) -> (r: bool)
    ensures
        r == is_object_with(n@, uuid@),
{
    match n {
        Node::Element(c) => str_eq(c.name.as_str(), "C") && match c.attr("U") {
            Some(v) => str_eq(v, uuid),
            None => false,
        },
        Node::Text(_) => false,
    }
}

fn find_direct(el: &Element, uuid: &str) -> (r: Option<usize>)
    ensures
        match r {
            Some(i) => direct_index(el@.children, uuid@, 0) == i && i < el.children@.len(),
            None => direct_index(el@.children, uuid@, 0) == -1,
        },
{
    let ghost o = el@;
    proof {
        lemma_direct_index(o.children, uuid@, 0);
    }
    let mut i: usize = 0;
    while i < el.children.len()
        invariant
            0 <= i <= el.children@.len(),
            el@ == o,
            o.children.len() == el.children@.len(),
            direct_index(o.children, uuid@, 0) == direct_index(o.children, uuid@, i as int),
        decreases el.children@.len() - i,
    {
        assert(o.children[i as int] == el.children@[i as int]@);
        if is_object_with_exec(&el.children[i], uuid) {
            return Some(i);
        }
        i = i + 1;
    }
    None
}

fn remove_object(el: &mut Element, uuid: &str) -> (r: Option<Element>)
    ensures
        final(el)@ == remove_obj(old(el)@, uuid@).0,
        match r {
            Some(x) => remove_obj(old(el)@, uuid@).1 == Some(x@),
            None => remove_obj(old(el)@, uuid@).1 is None,
        },
    decreases height(el@),
{
    let ghost o = el@;
    proof {
        lemma_direct_index(o.children, uuid@, 0);
    }
    match find_direct(el, uuid) {
        Some(i) => {
            let node = el.children.remove(i);
            if el.children.len() == 0 {
                el.self_closing = true;
            }
            proof {
                assert(el@.children =~= o.children.remove(i as int));
                assert(el@.attrs =~= o.attrs);
                assert(node@ == o.children[i as int]);
            }
            return match node {
                Node::Element(c) => Some(c),
                Node::Text(_) => None,
            };
        },
        None => {},
    }
    let mut result: Option<Element> = None;
    let mut j: usize = 0;
    while j < el.children.len() && result.is_none()
        invariant
            0 <= j <= el.children@.len(),
            o.children.len() == el.children@.len(),
            o == old(el)@,
            direct_index(o.children, uuid@, 0) == -1,
            match result {
                None => el@ == o && remove_obj(o, uuid@) == remove_in(o, uuid@, j as int),
                Some(x) => el@ == remove_obj(o, uuid@).0 && remove_obj(o, uuid@).1 == Some(x@),
            },
        decreases el.children@.len() - j,
    {
        let ghost before = el.children@;
        let node = el.children.remove(j);
        assert(node@ == o.children[j as int]);
        match node {
            Node::Element(c) => {
                let mut c = c;
                let ghost cm = c@;
                proof {
                    assert(o.children[j as int] == SNode::Element(cm));
                    lemma_children_height(o, j as int);
                    lemma_children_height_le(o, 0, j as int);
                    lemma_remove_none(cm, uuid@);
                    assert(height(cm) < height(o));
                }
                let r = remove_object(&mut c, uuid);
                el.children.insert(j, Node::Element(c));
                proof {
                    assert(el.children@ =~= before.update(j as int, Node::Element(c)));
                    assert(el@.children =~= o.children.update(j as int, SNode::Element(c@)));
                    assert(el@.attrs =~= o.attrs);
                    let (c2, rr) = remove_obj(cm, uuid@);
                    assert(remove_in(o, uuid@, j as int) == (if rr is Some {
                        (SElement { children: o.children.update(j as int, SNode::Element(c2)), ..o }, rr)
                    } else {
                        remove_in(o, uuid@, j + 1)
                    }));
                    if r is None {
                        assert(el@.children =~= o.children);
                    }
                }
                result = r;
            },
            Node::Text(t) => {
                el.children.insert(j, Node::Text(t));
                proof {
                    assert(el.children@ =~= before);
                    assert(el@.children =~= o.children);
                    assert(el@.attrs =~= o.attrs);
                }
            },
        }
        j = j + 1;
    }
    result
}

impl LoxoneDoc {
    /// Remove the `<C>` object with this UUID from wherever it is in the
    /// tree. Returns the removed element.
    pub fn remove_by_uuid(&mut self, uuid: &str) -> (r: Option<Element>)
        ensures
            final(self)@ == (SDoc { root: remove_obj(old(self)@.root, uuid@).0, ..old(self)@ }),
            match r {
                Some(x) => remove_obj(old(self)@.root, uuid@).1 == Some(x@),
                None => remove_obj(old(self)@.root, uuid@).1 is None,
            },
    {
        remove_object(&mut self.xml.root, uuid)
    }
}

} // verus!
