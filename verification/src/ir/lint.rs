//! Advisory lints: findings a compile has no business rejecting but a
//! human wants to see — declared names that serve nothing.
//!
//! Templates are checked before expansion (an uninstantiated template
//! disappears in the expanded view); externs and constants after expansion
//! and desugaring, so template-body captures and expression operands count
//! as uses.
use crate::ir::ast::{Item, Module};
use crate::ir::copy::lemma_items_v_index;
use crate::ir::desugar::{compile_err, desugar_spec, lowered_sinks};
use crate::ir::model::{item_v, items_v, SArg, SItem, SKind, SMatch, SValue};
use crate::ir::template::expand_spec;
use crate::doc::{
    last_assigned, objects_in, objects_view, objects_wires, ports, ports_spec, LoxoneDoc, ObjectSummary,
    PortView, SObject, SPort, WireView,
};
use crate::ir::liveness::{adj_edges, feeds_only_refs, flagged, reaches_non_ref};
use crate::lock::{LockedObject, Lockfile};
use crate::strmap::{map_get, StrMap};
use crate::text::{chars_of, push_str, str_eq, string_of};
use crate::xml::{attr_value, Element, Node, SElement, SNode};
use vstd::prelude::*;

verus! {

#[derive(Debug, Clone, Copy, PartialEq, Eq, Structural)]
pub enum LintKind {
    UnusedExtern,
    UnusedLet,
    UnusedTemplate,
    DeadOutputs,
}

pub open spec fn kind_label(k: LintKind) -> Seq<char> {
    match k {
        LintKind::UnusedExtern => "unused-extern"@,
        LintKind::UnusedLet => "unused-let"@,
        LintKind::UnusedTemplate => "unused-template"@,
        LintKind::DeadOutputs => "dead-outputs"@,
    }
}

impl LintKind {
    pub fn label(self) -> (r: &'static str)
        ensures
            r@ == kind_label(self),
    {
        match self {
            LintKind::UnusedExtern => "unused-extern",
            LintKind::UnusedLet => "unused-let",
            LintKind::UnusedTemplate => "unused-template",
            LintKind::DeadOutputs => "dead-outputs",
        }
    }
}

#[derive(Debug, Clone)]
pub struct LintFinding {
    pub kind: LintKind,
    pub slug: String,
    pub detail: String,
}

pub open spec fn finding_v(f: LintFinding) -> (LintKind, Seq<char>, Seq<char>) {
    (f.kind, f.slug@, f.detail@)
}

pub open spec fn findings_v(fs: Seq<LintFinding>) -> Seq<(LintKind, Seq<char>, Seq<char>)> {
    fs.map_values(|f: LintFinding| finding_v(f))
}

// ---------------------------------------------------------------------------
// The model
// ---------------------------------------------------------------------------

/// The templates that some instance names, as written.
pub open spec fn instantiated(items: Seq<Item>) -> Seq<Seq<char>>
    decreases items.len(),
{
    if items.len() == 0 {
        seq![]
    } else {
        match items.last() {
            Item::Instance(call) => instantiated(items.drop_last()).push(call.block_type@),
            _ => instantiated(items.drop_last()),
        }
    }
}

/// One finding per template that no instance names, in order.
pub open spec fn template_findings(items: Seq<Item>, used: Seq<Seq<char>>) -> Seq<(LintKind, Seq<char>, Seq<char>)>
    decreases items.len(),
{
    if items.len() == 0 {
        seq![]
    } else {
        let prev = template_findings(items.drop_last(), used);
        match items.last() {
            Item::Template(t) => if used.contains(t.name@) {
                prev
            } else {
                prev.push((LintKind::UnusedTemplate, t.name@, "declared but never instantiated"@))
            },
            _ => prev,
        }
    }
}

pub open spec fn is_ref_type(ty: Seq<char>) -> bool {
    ty == "InputRef"@ || ty == "OutputRef"@
}

/// Whether a `Ref` parameter on this port names an object: `mirrors:` on
/// a minted ref block.
pub open spec fn names_object(port: Seq<char>, ty: Seq<char>) -> bool {
    port == "mirrors"@ && is_ref_type(ty)
}

pub open spec fn arg_refs(a: SArg, ty: Seq<char>, objects: bool) -> Seq<Seq<char>> {
    match a {
        SArg::Binding(b) => match b.kind {
            SKind::Wire(src) => if objects {
                seq![src.0]
            } else {
                seq![]
            },
            SKind::Param(SValue::Ref(n)) => if names_object(b.port, ty) == objects {
                seq![n]
            } else {
                seq![]
            },
            _ => seq![],
        },
        SArg::Comment(_) => seq![],
    }
}

pub open spec fn args_refs(args: Seq<SArg>, ty: Seq<char>, objects: bool) -> Seq<Seq<char>>
    decreases args.len(),
{
    if args.len() == 0 {
        seq![]
    } else {
        args_refs(args.drop_last(), ty, objects) + arg_refs(args.last(), ty, objects)
    }
}

/// The object slugs (`objects`) or constant names (`!objects`) a
/// statement reads.
pub open spec fn item_refs(i: SItem, objects: bool) -> Seq<Seq<char>> {
    match i {
        SItem::Wire(to, from, _) => if objects {
            seq![from.0, to.0]
        } else {
            seq![]
        },
        SItem::Block(b) => args_refs(b.args, b.block_type, objects),
        SItem::Assign(target, v, _) => if objects {
            seq![target.0]
        } else {
            match v {
                SValue::Ref(n) => seq![n],
                _ => seq![],
            }
        },
        SItem::Extern(e) => match e.match_spec {
            SMatch::Mirrors(t) => if objects {
                seq![t]
            } else {
                seq![]
            },
            _ => seq![],
        },
        _ => seq![],
    }
}

pub open spec fn refs(items: Seq<SItem>, objects: bool) -> Seq<Seq<char>>
    decreases items.len(),
{
    if items.len() == 0 {
        seq![]
    } else {
        refs(items.drop_last(), objects) + item_refs(items.last(), objects)
    }
}

/// One finding per extern no statement reads and per constant no value
/// names, in order.
pub open spec fn name_findings(flat: Seq<SItem>, objs: Seq<Seq<char>>, lets: Seq<Seq<char>>) -> Seq<(LintKind, Seq<char>, Seq<char>)>
    decreases flat.len(),
{
    if flat.len() == 0 {
        seq![]
    } else {
        let prev = name_findings(flat.drop_last(), objs, lets);
        match flat.last() {
            SItem::Extern(e) => if objs.contains(e.slug) {
                prev
            } else {
                prev.push((LintKind::UnusedExtern, e.slug, "extern "@ + e.block_type + " is never referenced"@))
            },
            SItem::Let(name, _, _) => if lets.contains(name) {
                prev
            } else {
                prev.push((LintKind::UnusedLet, name, "constant is never referenced"@))
            },
            _ => prev,
        }
    }
}

/// The findings for a module whose expanded, desugared statements are
/// `flat`.
pub open spec fn lint_findings(items: Seq<Item>, flat: Seq<SItem>) -> Seq<(LintKind, Seq<char>, Seq<char>)> {
    template_findings(items, instantiated(items)) + name_findings(flat, refs(flat, true), refs(flat, false))
}

// ---------------------------------------------------------------------------
// Implementation
// ---------------------------------------------------------------------------

spec fn strs_of(v: Seq<&str>) -> Seq<Seq<char>> {
    v.map_values(|s: &str| s@)
}

fn contains_str(v: &Vec<&str>, s: &str) -> (r: bool)
    ensures
        r == strs_of(v@).contains(s@),
{
    let mut i: usize = 0;
    while i < v.len()
        invariant
            0 <= i <= v@.len(),
            forall|j: int| 0 <= j < i ==> v@[j]@ != s@,
        decreases v@.len() - i,
    {
        if str_eq(v[i], s) {
            proof {
                assert(strs_of(v@)[i as int] == s@);
            }
            return true;
        }
        i = i + 1;
    }
    proof {
        assert forall|j: int| 0 <= j < strs_of(v@).len() implies #[trigger] strs_of(v@)[j] != s@ by {
            assert(v@[j]@ != s@);
        }
    }
    false
}

fn push_ref<'a>(v: &mut Vec<&'a str>, s: &'a str)
    ensures
        strs_of(final(v)@) == strs_of(old(v)@).push(s@),
{
    proof {
        assert(strs_of(v@.push(s)) =~= strs_of(v@).push(s@));
    }
    v.push(s);
}

fn template_lints(items: &Vec<Item>) -> (r: Vec<LintFinding>)
    ensures
        findings_v(r@) == template_findings(items@, instantiated(items@)),
{
    let mut used: Vec<&str> = Vec::new();
    let mut i: usize = 0;
    while i < items.len()
        invariant
            0 <= i <= items@.len(),
            strs_of(used@) == instantiated(items@.take(i as int)),
        decreases items@.len() - i,
    {
        proof {
            assert(items@.take(i + 1).drop_last() =~= items@.take(i as int));
        }
        if let Item::Instance(call) = &items[i] {
            push_ref(&mut used, call.block_type.as_str());
        }
        i = i + 1;
    }
    proof {
        assert(items@.take(items@.len() as int) =~= items@);
    }
    let ghost U = strs_of(used@);
    let mut out: Vec<LintFinding> = Vec::new();
    let mut i: usize = 0;
    proof {
        assert(findings_v(out@) =~= Seq::<(LintKind, Seq<char>, Seq<char>)>::empty());
    }
    while i < items.len()
        invariant
            0 <= i <= items@.len(),
            U == strs_of(used@),
            U == instantiated(items@),
            findings_v(out@) == template_findings(items@.take(i as int), U),
        decreases items@.len() - i,
    {
        proof {
            assert(items@.take(i + 1).drop_last() =~= items@.take(i as int));
        }
        if let Item::Template(t) = &items[i] {
            if !contains_str(&used, t.name.as_str()) {
                let f = LintFinding {
                    kind: LintKind::UnusedTemplate,
                    slug: t.name.clone(),
                    detail: string_of("declared but never instantiated"),
                };
                proof {
                    assert(findings_v(out@.push(f)) =~= findings_v(out@).push(finding_v(f)));
                }
                out.push(f);
            }
        }
        i = i + 1;
    }
    proof {
        assert(items@.take(items@.len() as int) =~= items@);
    }
    out
}

/// The references of the flat statements: object slugs (`objects`) or
/// constant names.
fn collect_refs<'a>(items: &'a Vec<Item>, objects: bool) -> (r: Vec<&'a str>)
    ensures
        strs_of(r@) == refs(items_v(items@), objects),
{
    let ghost V = items_v(items@);
    proof {
        lemma_items_v_index(items@);
    }
    let mut r: Vec<&'a str> = Vec::new();
    let mut i: usize = 0;
    while i < items.len()
        invariant
            0 <= i <= items@.len(),
            V == items_v(items@),
            V.len() == items@.len(),
            forall|k: int| 0 <= k < items@.len() ==> #[trigger] V[k] == item_v(items@[k]),
            strs_of(r@) == refs(V.take(i as int), objects),
        decreases items@.len() - i,
    {
        proof {
            assert(V.take(i + 1).drop_last() =~= V.take(i as int));
            assert(V.take(i + 1).last() == item_v(items@[i as int]));
        }
        let ghost before = strs_of(r@);
        match &items[i] {
            Item::Wire(w) => {
                if objects {
                    push_ref(&mut r, w.from.slug.as_str());
                    push_ref(&mut r, w.to.slug.as_str());
                }
                proof {
                    assert(strs_of(r@) =~= before + item_refs(V[i as int], objects));
                }
            },
            Item::Block(b) => {
                let ghost A = crate::ir::model::args_v(b.args@);
                let mut j: usize = 0;
                while j < b.args.len()
                    invariant
                        0 <= j <= b.args@.len(),
                        A == crate::ir::model::args_v(b.args@),
                        strs_of(r@) == before + args_refs(A.take(j as int), b.block_type@, objects),
                    decreases b.args@.len() - j,
                {
                    proof {
                        assert(A.take(j + 1).drop_last() =~= A.take(j as int));
                        assert(A.take(j + 1).last() == crate::ir::model::arg_v(b.args@[j as int]));
                    }
                    let ghost mid = strs_of(r@);
                    if let crate::ir::ast::ArgItem::Binding(x) = &b.args[j] {
                        match &x.kind {
                            crate::ir::ast::BindingKind::Wire(src) => {
                                if objects {
                                    push_ref(&mut r, src.slug.as_str());
                                }
                            },
                            crate::ir::ast::BindingKind::Param(crate::ir::ast::Value::Ref(n)) => {
                                let named = str_eq(x.port.as_str(), "mirrors") && (str_eq(
                                    b.block_type.as_str(),
                                    "InputRef",
                                ) || str_eq(b.block_type.as_str(), "OutputRef"));
                                if named == objects {
                                    push_ref(&mut r, n.as_str());
                                }
                            },
                            _ => {},
                        }
                    }
                    proof {
                        assert(strs_of(r@) =~= mid + arg_refs(A[j as int], b.block_type@, objects));
                    }
                    j = j + 1;
                }
                proof {
                    assert(A.take(A.len() as int) =~= A);
                    assert(strs_of(r@) =~= before + item_refs(V[i as int], objects));
                }
            },
            Item::Assign(a) => {
                if objects {
                    push_ref(&mut r, a.target.slug.as_str());
                } else {
                    if let crate::ir::ast::Value::Ref(n) = &a.value {
                        push_ref(&mut r, n.as_str());
                    }
                }
                proof {
                    assert(strs_of(r@) =~= before + item_refs(V[i as int], objects));
                }
            },
            Item::Extern(e) => {
                if let crate::ir::ast::MatchSpec::Mirrors(t) = &e.match_spec {
                    if objects {
                        push_ref(&mut r, t.as_str());
                    }
                }
                proof {
                    assert(strs_of(r@) =~= before + item_refs(V[i as int], objects));
                }
            },
            _ => {
                proof {
                    assert(strs_of(r@) =~= before + item_refs(V[i as int], objects));
                }
            },
        }
        i = i + 1;
    }
    proof {
        assert(V.take(V.len() as int) =~= V);
    }
    r
}

/// Source lints: declared names nothing references. Each finding names
/// its kind, the declaration, and why it was flagged.
pub fn lint_source(module: &Module) -> (r: crate::error::Result<Vec<LintFinding>>)
    ensures
        match expand_spec(module.items@) {
            Err(m) => r matches Err(e) && compile_err(e, m),
            Ok(ex) => exists|m1: Seq<Item>|
                items_v(m1) == ex && match #[trigger] desugar_spec(m1, lowered_sinks(m1)) {
                    Err(m) => r matches Err(e) && compile_err(e, m),
                    Ok((st, _)) => r matches Ok(f) && findings_v(f@) == lint_findings(module.items@, st.out),
                },
        },
{
    let mut findings = template_lints(&module.items);
    let ex = match module.expand() {
        Ok(m) => m,
        Err(e) => return Err(e),
    };
    let ghost m1 = ex.items@;
    let flat = match ex.desugar() {
        Ok((f, _)) => f,
        Err(e) => return Err(e),
    };
    let objs = collect_refs(&flat.items, true);
    let lets = collect_refs(&flat.items, false);
    let ghost V = items_v(flat.items@);
    let ghost before = findings_v(findings@);
    proof {
        lemma_items_v_index(flat.items@);
    }
    let mut i: usize = 0;
    while i < flat.items.len()
        invariant
            0 <= i <= flat.items@.len(),
            V == items_v(flat.items@),
            V.len() == flat.items@.len(),
            forall|k: int| 0 <= k < flat.items@.len() ==> #[trigger] V[k] == item_v(flat.items@[k]),
            findings_v(findings@) == before + name_findings(V.take(i as int), strs_of(objs@), strs_of(lets@)),
        decreases flat.items@.len() - i,
    {
        proof {
            assert(V.take(i + 1).drop_last() =~= V.take(i as int));
            assert(V.take(i + 1).last() == item_v(flat.items@[i as int]));
        }
        match &flat.items[i] {
            Item::Extern(e) => {
                if !contains_str(&objs, e.slug.as_str()) {
                    let mut d = string_of("extern ");
                    push_str(&mut d, e.block_type.as_str());
                    push_str(&mut d, " is never referenced");
                    let f = LintFinding { kind: LintKind::UnusedExtern, slug: e.slug.clone(), detail: d };
                    proof {
                        assert(findings_v(findings@.push(f)) =~= findings_v(findings@).push(finding_v(f)));
                    }
                    findings.push(f);
                }
            },
            Item::Let(l) => {
                if !contains_str(&lets, l.name.as_str()) {
                    let f = LintFinding {
                        kind: LintKind::UnusedLet,
                        slug: l.name.clone(),
                        detail: string_of("constant is never referenced"),
                    };
                    proof {
                        assert(findings_v(findings@.push(f)) =~= findings_v(findings@).push(finding_v(f)));
                    }
                    findings.push(f);
                }
            },
            _ => {},
        }
        proof {
            assert(findings_v(findings@) =~= before + name_findings(V.take(i + 1), strs_of(objs@), strs_of(lets@)));
        }
        i = i + 1;
    }
    proof {
        assert(V.take(V.len() as int) =~= V);
        assert(desugar_spec(m1, lowered_sinks(m1)) matches Ok((st, _)) && st.out == V);
    }
    Ok(findings)
}

// ---------------------------------------------------------------------------
// Dead outputs, judged against the compiled config
// ---------------------------------------------------------------------------

/// `port uuid → object index` assignments, ports in document order.
pub open spec fn port_index_assignments(objs: Seq<(SObject, SElement)>) -> Seq<(Seq<char>, int)>
    decreases objs.len(),
{
    if objs.len() == 0 {
        seq![]
    } else {
        port_index_assignments(objs.drop_last()) + ports_spec(objs.last().1).map_values(
            |p: SPort| (p.uuid, objs.len() - 1),
        )
    }
}

/// `object uuid → index` assignments, objects in document order.
pub open spec fn uuid_index_assignments(objs: Seq<(SObject, SElement)>) -> Seq<(Seq<char>, int)> {
    Seq::new(objs.len(), |i: int| (objs[i].0.uuid, i))
}

/// The object a port belongs to (the last object listing it).
pub open spec fn port_object(objs: Seq<(SObject, SElement)>, u: Seq<char>) -> Option<int> {
    last_assigned(port_index_assignments(objs), u)
}

/// `a → b` when one of the wires runs from a port of `a` to a port of `b`.
pub open spec fn wire_feeds(
    objs: Seq<(SObject, SElement)>,
    ws: Seq<(Seq<char>, Seq<char>)>,
) -> spec_fn(int, int) -> bool {
    |a: int, b: int|
        exists|j: int|
            0 <= j < ws.len() && port_object(objs, #[trigger] ws[j].0) == Some(a) && port_object(
                objs,
                ws[j].1,
            ) == Some(b)
}

/// Which object feeds which in the compiled config.
pub open spec fn feeds(objs: Seq<(SObject, SElement)>) -> spec_fn(int, int) -> bool {
    wire_feeds(objs, objects_wires(objs))
}

/// The `InputRef`/`OutputRef` objects.
pub open spec fn ref_objects(objs: Seq<(SObject, SElement)>) -> spec_fn(int) -> bool {
    |i: int| 0 <= i < objs.len() && is_ref_type(objs[i].0.block_type)
}

/// The element has an `<IoData>` child.
pub open spec fn has_iodata(e: SElement) -> bool {
    exists|k: int|
        0 <= k < e.children.len() && (#[trigger] e.children[k] matches SNode::Element(c) && c.name
            == "IoData"@)
}

/// Objects that act through side channels wires cannot show: a central
/// block commanding its `rec=` targets, or a `Code16` program.
pub open spec fn acts_out_of_band(o: (SObject, SElement)) -> bool {
    (match attr_value(o.1, "rec"@) {
        Some(v) => v.len() > 0,
        None => false,
    }) || o.0.block_type == "Code16"@
}

pub open spec fn dead_detail(objs: Seq<(SObject, SElement)>, s: int) -> Seq<char> {
    (if exists|b: int| #[trigger] feeds(objs)(s, b) {
        "feeds only ref plumbing that itself feeds nothing"@
    } else {
        "no wire draws from any of its ports (compiled config, GUI wires included)"@
    }) + if has_iodata(objs[s].1) {
        " — carries IoData, may be app-visible"@
    } else {
        ""@
    }
}

/// The finding for one flattened item: a locked, declared block whose
/// compiled object feeds only ref plumbing.
pub open spec fn dead_finding(
    objs: Seq<(SObject, SElement)>,
    locked: Seq<(Seq<char>, LockedObject)>,
    it: SItem,
) -> Seq<(LintKind, Seq<char>, Seq<char>)> {
    match it {
        SItem::Block(b) => match map_get(locked, b.slug) {
            Some(entry) => if entry.expr_owned {
                seq![]
            } else {
                match last_assigned(uuid_index_assignments(objs), entry.uuid@) {
                    Some(s) => if acts_out_of_band(objs[s]) || !feeds_only_refs(
                        feeds(objs),
                        ref_objects(objs),
                        s,
                    ) {
                        seq![]
                    } else {
                        seq![(LintKind::DeadOutputs, b.slug, dead_detail(objs, s))]
                    },
                    None => seq![],
                }
            },
            None => seq![],
        },
        _ => seq![],
    }
}

pub open spec fn dead_findings(
    objs: Seq<(SObject, SElement)>,
    locked: Seq<(Seq<char>, LockedObject)>,
    items: Seq<SItem>,
) -> Seq<(LintKind, Seq<char>, Seq<char>)>
    decreases items.len(),
{
    if items.len() == 0 {
        seq![]
    } else {
        dead_findings(objs, locked, items.drop_last()) + dead_finding(objs, locked, items.last())
    }
}

proof fn lemma_last_assigned_member<V>(s: Seq<(Seq<char>, V)>, k: Seq<char>)
    ensures
        last_assigned(s, k) matches Some(v) ==> exists|j: int| 0 <= j < s.len() && #[trigger] s[j] == (k, v),
    decreases s.len(),
{
    if s.len() > 0 && s.last().0 != k {
        lemma_last_assigned_member(s.drop_last(), k);
        if let Some(v) = last_assigned(s, k) {
            let j = choose|j: int| 0 <= j < s.drop_last().len() && #[trigger] s.drop_last()[j] == (k, v);
            assert(s[j] == (k, v));
        }
    }
}

proof fn lemma_port_index_range(objs: Seq<(SObject, SElement)>)
    ensures
        forall|j: int|
            0 <= j < port_index_assignments(objs).len() ==> 0 <= #[trigger] port_index_assignments(
                objs,
            )[j].1 < objs.len(),
    decreases objs.len(),
{
    if objs.len() > 0 {
        lemma_port_index_range(objs.drop_last());
        let base = port_index_assignments(objs.drop_last());
        let add = ports_spec(objs.last().1).map_values(|p: SPort| (p.uuid, objs.len() - 1));
        let all = port_index_assignments(objs);
        assert(all == base + add);
        assert forall|j: int| 0 <= j < all.len() implies 0 <= #[trigger] all[j].1 < objs.len() by {
            if j < base.len() {
                assert(all[j] == base[j]);
            } else {
                assert(all[j] == add[j - base.len()]);
            }
        }
    }
}

proof fn lemma_port_object_range(objs: Seq<(SObject, SElement)>, u: Seq<char>)
    ensures
        port_object(objs, u) matches Some(v) ==> 0 <= v < objs.len(),
{
    let all = port_index_assignments(objs);
    lemma_last_assigned_member(all, u);
    lemma_port_index_range(objs);
    if let Some(v) = port_object(objs, u) {
        let j = choose|j: int| 0 <= j < all.len() && #[trigger] all[j] == (u, v);
        assert(all[j].1 == v);
    }
}

fn has_iodata_exec(e: &Element) -> (r: bool)
    ensures
        r == has_iodata(e@),
{
    let mut k: usize = 0;
    while k < e.children.len()
        invariant
            0 <= k <= e.children@.len(),
            forall|j: int| 0 <= j < k ==> !(#[trigger] e@.children[j] matches SNode::Element(c) && c.name == "IoData"@),
        decreases e.children@.len() - k,
    {
        assert(e@.children[k as int] == e.children@[k as int]@);
        match &e.children[k] {
            Node::Element(c) => {
                if str_eq(c.name.as_str(), "IoData") {
                    return true;
                }
            },
            Node::Text(_) => {},
        }
        k = k + 1;
    }
    false
}

fn acts_out_of_band_exec(o: &ObjectSummary, e: &Element) -> (r: bool)
    ensures
        r == acts_out_of_band((o@, e@)),
{
    let rec = match e.attr("rec") {
        Some(v) => chars_of(v).len() > 0,
        None => false,
    };
    rec || str_eq(o.block_type.as_str(), "Code16")
}

/// Per-object lookup tables: port owner, uuid index, ref and `IoData` flags.
fn object_tables(objs: &Vec<ObjectSummary>, els: &Vec<&Element>) -> (r: (
    StrMap<usize>,
    StrMap<usize>,
    Vec<bool>,
    Vec<bool>,
))
    requires
        objs@.len() == els@.len(),
    ensures
        ({
            let ov = objects_view(objs@, els@);
            &&& r.2@.len() == ov.len()
            &&& r.3@.len() == ov.len()
            &&& forall|i: int| 0 <= i < ov.len() ==> #[trigger] r.2@[i] == is_ref_type(ov[i].0.block_type)
            &&& forall|i: int| 0 <= i < ov.len() ==> #[trigger] r.3@[i] == has_iodata(ov[i].1)
            &&& forall|k: Seq<char>|
                match #[trigger] map_get(r.0@, k) {
                    Some(v) => port_object(ov, k) == Some(v as int),
                    None => port_object(ov, k) is None,
                }
            &&& forall|k: Seq<char>|
                match #[trigger] map_get(r.1@, k) {
                    Some(v) => last_assigned(uuid_index_assignments(ov), k) == Some(v as int),
                    None => last_assigned(uuid_index_assignments(ov), k) is None,
                }
        }),
{
    let ghost ov = objects_view(objs@, els@);
    let mut owner: StrMap<usize> = StrMap::new();
    let mut by_uuid: StrMap<usize> = StrMap::new();
    let mut is_ref: Vec<bool> = Vec::new();
    let mut has_io: Vec<bool> = Vec::new();
    let mut i: usize = 0;
    while i < objs.len()
        invariant
            0 <= i <= objs@.len(),
            objs@.len() == els@.len(),
            ov == objects_view(objs@, els@),
            is_ref@.len() == i,
            has_io@.len() == i,
            forall|j: int| 0 <= j < i ==> #[trigger] is_ref@[j] == is_ref_type(ov[j].0.block_type),
            forall|j: int| 0 <= j < i ==> #[trigger] has_io@[j] == has_iodata(ov[j].1),
            forall|k: Seq<char>|
                match #[trigger] map_get(owner@, k) {
                    Some(v) => last_assigned(port_index_assignments(ov.take(i as int)), k) == Some(v as int),
                    None => last_assigned(port_index_assignments(ov.take(i as int)), k) is None,
                },
            forall|k: Seq<char>|
                match #[trigger] map_get(by_uuid@, k) {
                    Some(v) => last_assigned(uuid_index_assignments(ov.take(i as int)), k) == Some(v as int),
                    None => last_assigned(uuid_index_assignments(ov.take(i as int)), k) is None,
                },
        decreases objs@.len() - i,
    {
        let obj = &objs[i];
        let el = els[i];
        let ps = ports(el);
        let ghost pv = ps@.map_values(|p: PortView| p@);
        let ghost base = port_index_assignments(ov.take(i as int));
        let ghost add = pv.map_values(|p: SPort| (p.uuid, i as int));
        proof {
            assert(ov[i as int] == (obj@, el@));
            assert(ov.take(i + 1).drop_last() =~= ov.take(i as int));
            assert(port_index_assignments(ov.take(i + 1)) == base + add);
        }
        let mut j: usize = 0;
        while j < ps.len()
            invariant
                0 <= j <= ps@.len(),
                pv == ps@.map_values(|p: PortView| p@),
                add == pv.map_values(|p: SPort| (p.uuid, i as int)),
                forall|k: Seq<char>|
                    match #[trigger] map_get(owner@, k) {
                        Some(v) => last_assigned(base + add.take(j as int), k) == Some(v as int),
                        None => last_assigned(base + add.take(j as int), k) is None,
                    },
            decreases ps@.len() - j,
        {
            let ghost prev = base + add.take(j as int);
            let ghost next = base + add.take(j + 1);
            proof {
                assert(next.drop_last() =~= prev);
                assert(next.last() == (ps@[j as int]@.uuid, i as int));
            }
            owner.insert(string_of(ps[j].uuid.as_str()), i);
            j = j + 1;
        }
        proof {
            assert(add.take(add.len() as int) =~= add);
        }
        let ghost ua = uuid_index_assignments(ov.take(i + 1));
        proof {
            assert(ua.drop_last() =~= uuid_index_assignments(ov.take(i as int)));
            assert(ua.last() == (obj@.uuid, i as int));
        }
        by_uuid.insert(string_of(obj.uuid.as_str()), i);
        is_ref.push(str_eq(obj.block_type.as_str(), "InputRef") || str_eq(obj.block_type.as_str(), "OutputRef"));
        has_io.push(has_iodata_exec(el));
        i = i + 1;
    }
    proof {
        assert(ov.take(ov.len() as int) =~= ov);
    }
    (owner, by_uuid, is_ref, has_io)
}

/// The object graph: for each object, the objects its ports feed.
fn feed_graph(wires: &Vec<WireView>, owner: &StrMap<usize>, n: usize, Ghost(ov): Ghost<Seq<(SObject, SElement)>>) -> (adj: Vec<Vec<usize>>)
    requires
        n == ov.len(),
        wires@.map_values(|w: WireView| w@) == objects_wires(ov),
        forall|k: Seq<char>|
            match #[trigger] map_get(owner@, k) {
                Some(v) => port_object(ov, k) == Some(v as int),
                None => port_object(ov, k) is None,
            },
    ensures
        adj@.len() == n,
        forall|a: int, k: int| 0 <= a < adj@.len() && 0 <= k < adj@[a]@.len() ==> #[trigger] adj@[a]@[k] < n,
        adj_edges(adj@) == feeds(ov),
{
    let ghost W = objects_wires(ov);
    let mut adj: Vec<Vec<usize>> = Vec::new();
    let mut i: usize = 0;
    while i < n
        invariant
            0 <= i <= n,
            adj@.len() == i,
            forall|a: int| 0 <= a < i ==> (#[trigger] adj@[a])@.len() == 0,
        decreases n - i,
    {
        adj.push(Vec::new());
        i = i + 1;
    }
    proof {
        assert forall|a: int, b: int| #[trigger] adj_edges(adj@)(a, b) == wire_feeds(ov, W.take(0))(a, b) by {
        }
    }
    let mut w: usize = 0;
    while w < wires.len()
        invariant
            0 <= w <= wires@.len(),
            n == ov.len(),
            W == objects_wires(ov),
            wires@.map_values(|w: WireView| w@) == W,
            adj@.len() == n,
            forall|k: Seq<char>|
                match #[trigger] map_get(owner@, k) {
                    Some(v) => port_object(ov, k) == Some(v as int),
                    None => port_object(ov, k) is None,
                },
            forall|a: int, k: int| 0 <= a < adj@.len() && 0 <= k < adj@[a]@.len() ==> #[trigger] adj@[a]@[k] < n,
            forall|a: int, b: int| #[trigger] adj_edges(adj@)(a, b) == wire_feeds(ov, W.take(w as int))(a, b),
        decreases wires@.len() - w,
    {
        let wire = &wires[w];
        proof {
            assert(W[w as int] == wire@);
        }
        let from = owner.get(wire.from_port.as_str());
        let to = owner.get(wire.to_port.as_str());
        let ghost old_adj = adj@;
        if let (Some(fa), Some(tb)) = (from, to) {
            let fa = *fa;
            let tb = *tb;
            proof {
                lemma_port_object_range(ov, wire@.0);
                lemma_port_object_range(ov, wire@.1);
            }
            let mut row = adj[fa].clone();
            proof {
                assert(row@ =~= old_adj[fa as int]@);
            }
            row.push(tb);
            let ghost new_row = row@;
            adj.set(fa, row);
            proof {
                assert(adj@[fa as int]@ == old_adj[fa as int]@.push(tb));
                assert forall|a: int, k: int| 0 <= a < adj@.len() && 0 <= k < adj@[a]@.len() implies #[trigger] adj@[a]@[k] < n by {
                    if a == fa {
                        if k < old_adj[a]@.len() {
                            assert(adj@[a]@[k] == old_adj[a]@[k]);
                        }
                    } else {
                        assert(adj@[a] == old_adj[a]);
                    }
                }
                assert forall|a: int, b: int| #[trigger] adj_edges(adj@)(a, b) == wire_feeds(ov, W.take(w + 1))(a, b) by {
                    lemma_feeds_step(ov, W, w as int, a, b);
                    assert(adj_edges(old_adj)(a, b) == wire_feeds(ov, W.take(w as int))(a, b));
                    assert(port_object(ov, W[w as int].0) == Some(fa as int));
                    assert(port_object(ov, W[w as int].1) == Some(tb as int));
                    if a == fa {
                        if adj_edges(adj@)(a, b) {
                            let k = choose|k: int| 0 <= k < adj@[a]@.len() && adj@[a]@[k] == b;
                            if k < old_adj[a]@.len() {
                                assert(old_adj[a]@[k] == b);
                                assert(adj_edges(old_adj)(a, b));
                            } else {
                                assert(b == tb);
                            }
                        }
                        if adj_edges(old_adj)(a, b) {
                            let k = choose|k: int| 0 <= k < old_adj[a]@.len() && old_adj[a]@[k] == b;
                            assert(adj@[a]@[k] == b);
                            assert(adj_edges(adj@)(a, b));
                        }
                        if b == tb {
                            assert(adj@[a]@[old_adj[a]@.len() as int] == b);
                            assert(adj_edges(adj@)(a, b));
                        }
                    } else if 0 <= a < adj@.len() {
                        assert(adj@[a] == old_adj[a]);
                        assert(adj_edges(adj@)(a, b) == adj_edges(old_adj)(a, b));
                    } else {
                        assert(!adj_edges(adj@)(a, b));
                        assert(!adj_edges(old_adj)(a, b));
                    }
                }
            }
        } else {
            proof {
                assert forall|a: int, b: int| #[trigger] adj_edges(adj@)(a, b) == wire_feeds(ov, W.take(w + 1))(a, b) by {
                    lemma_feeds_step(ov, W, w as int, a, b);
                }
            }
        }
        w = w + 1;
    }
    proof {
        assert(W.take(W.len() as int) =~= W);
        assert(adj_edges(adj@) =~= feeds(ov));
    }
    adj
}

proof fn lemma_feeds_step(
    ov: Seq<(SObject, SElement)>,
    ws: Seq<(Seq<char>, Seq<char>)>,
    w: int,
    a: int,
    b: int,
)
    requires
        0 <= w < ws.len(),
    ensures
        wire_feeds(ov, ws.take(w + 1))(a, b) == (wire_feeds(ov, ws.take(w))(a, b) || (port_object(ov, ws[w].0)
            == Some(a) && port_object(ov, ws[w].1) == Some(b))),
{
    let t0 = ws.take(w);
    let t1 = ws.take(w + 1);
    if wire_feeds(ov, t1)(a, b) {
        let j = choose|j: int|
            0 <= j < t1.len() && port_object(ov, #[trigger] t1[j].0) == Some(a) && port_object(ov, t1[j].1) == Some(b);
        if j < w {
            assert(t0[j] == t1[j]);
        }
    }
    if wire_feeds(ov, t0)(a, b) {
        let j = choose|j: int|
            0 <= j < t0.len() && port_object(ov, #[trigger] t0[j].0) == Some(a) && port_object(ov, t0[j].1) == Some(b);
        assert(t1[j] == t0[j]);
    }
    if port_object(ov, ws[w].0) == Some(a) && port_object(ov, ws[w].1) == Some(b) {
        assert(t1[w] == ws[w]);
    }
}

/// Blocks whose outputs feed nothing, checked against the compiled config
/// (wires drawn in the GUI count as consumers). A block is flagged when
/// nothing draws from its ports, or when everything reachable from them is
/// `InputRef`/`OutputRef` plumbing that itself feeds nothing. Blocks minted
/// for expressions, blocks not compiled yet, and objects acting through
/// side channels (`rec=` targets, `Code16` programs) are not judged.
pub fn lint_dead_outputs(module: &Module, lock: &Lockfile, compiled: &LoxoneDoc) -> (r: crate::error::Result<Vec<LintFinding>>)
    ensures
        match expand_spec(module.items@) {
            Err(m) => r matches Err(e) && compile_err(e, m),
            Ok(ex) => exists|m1: Seq<Item>|
                items_v(m1) == ex && match #[trigger] desugar_spec(m1, lowered_sinks(m1)) {
                    Err(m) => r matches Err(e) && compile_err(e, m),
                    Ok((st, _)) => r matches Ok(f) && findings_v(f@) == dead_findings(
                        objects_in(compiled@.root, seq![]),
                        lock.objects@,
                        st.out,
                    ),
                },
        },
{
    let ex = match module.expand() {
        Ok(m) => m,
        Err(e) => return Err(e),
    };
    let ghost m1 = ex.items@;
    let flat = match ex.desugar() {
        Ok((f, _)) => f,
        Err(e) => return Err(e),
    };
    let (objs, els) = compiled.object_entries();
    let ghost ov = objects_view(objs@, els@);
    let (owner, by_uuid, is_ref, has_io) = object_tables(&objs, &els);
    let wires = compiled.wires();
    let adj = feed_graph(&wires, &owner, objs.len(), Ghost(ov));
    proof {
        assert(flagged(is_ref@) =~= ref_objects(ov));
    }
    let ghost V = items_v(flat.items@);
    proof {
        lemma_items_v_index(flat.items@);
    }
    let mut findings: Vec<LintFinding> = Vec::new();
    let mut i: usize = 0;
    while i < flat.items.len()
        invariant
            0 <= i <= flat.items@.len(),
            V == items_v(flat.items@),
            V.len() == flat.items@.len(),
            forall|k: int| 0 <= k < flat.items@.len() ==> #[trigger] V[k] == item_v(flat.items@[k]),
            objs@.len() == els@.len(),
            ov == objects_view(objs@, els@),
            adj@.len() == ov.len(),
            is_ref@.len() == ov.len(),
            has_io@.len() == ov.len(),
            forall|a: int, k: int| 0 <= a < adj@.len() && 0 <= k < adj@[a]@.len() ==> #[trigger] adj@[a]@[k] < ov.len(),
            adj_edges(adj@) == feeds(ov),
            flagged(is_ref@) == ref_objects(ov),
            forall|j: int| 0 <= j < ov.len() ==> #[trigger] has_io@[j] == has_iodata(ov[j].1),
            forall|k: Seq<char>|
                match #[trigger] map_get(by_uuid@, k) {
                    Some(v) => last_assigned(uuid_index_assignments(ov), k) == Some(v as int),
                    None => last_assigned(uuid_index_assignments(ov), k) is None,
                },
            findings_v(findings@) == dead_findings(ov, lock.objects@, V.take(i as int)),
        decreases flat.items@.len() - i,
    {
        proof {
            assert(V.take(i + 1).drop_last() =~= V.take(i as int));
            assert(V.take(i + 1).last() == item_v(flat.items@[i as int]));
        }
        if let Item::Block(b) = &flat.items[i] {
            if let Some(entry) = lock.objects.get(b.slug.as_str()) {
                if !entry.expr_owned {
                    if let Some(s) = by_uuid.get(entry.uuid.as_str()) {
                        let s = *s;
                        proof {
                            lemma_last_assigned_member(uuid_index_assignments(ov), entry.uuid@);
                        }
                        if !acts_out_of_band_exec(&objs[s], els[s]) {
                            proof {
                                assert(ov[s as int] == (objs@[s as int]@, els@[s as int]@));
                            }
                            let alive = reaches_non_ref(&adj, &is_ref, s);
                            if !alive {
                                let mut d = if adj[s].len() == 0 {
                                    string_of("no wire draws from any of its ports (compiled config, GUI wires included)")
                                } else {
                                    string_of("feeds only ref plumbing that itself feeds nothing")
                                };
                                proof {
                                    if adj@[s as int]@.len() == 0 {
                                        assert forall|x: int| !#[trigger] feeds(ov)(s as int, x) by {
                                            assert(!adj_edges(adj@)(s as int, x));
                                        }
                                    } else {
                                        assert(adj_edges(adj@)(s as int, adj@[s as int]@[0] as int));
                                        assert(feeds(ov)(s as int, adj@[s as int]@[0] as int));
                                    }
                                }
                                if has_io[s] {
                                    push_str(&mut d, " — carries IoData, may be app-visible");
                                } else {
                                    proof {
                                        reveal_strlit("");
                                        assert(d@ + ""@ =~= d@);
                                    }
                                }
                                let f = LintFinding { kind: LintKind::DeadOutputs, slug: b.slug.clone(), detail: d };
                                proof {
                                    assert(findings_v(findings@.push(f)) =~= findings_v(findings@).push(finding_v(f)));
                                }
                                findings.push(f);
                            }
                        }
                    }
                }
            }
        }
        proof {
            assert(findings_v(findings@) =~= dead_findings(ov, lock.objects@, V.take(i + 1)));
        }
        i = i + 1;
    }
    proof {
        assert(V.take(V.len() as int) =~= V);
        assert(desugar_spec(m1, lowered_sinks(m1)) matches Ok((st, _)) && st.out == V);
    }
    Ok(findings)
}

} // verus!
