//! Semantic diff between two `.Loxone` documents, keyed by UUID.
//!
//! Its main job is telling *real* edits apart from noise, in particular the
//! locale renames: saving a config in a differently-localized Loxone Config
//! renames every built-in object into the UI language. [`Rename`]'s
//! `locale_suspect` flags those.
use crate::connectors::{attr_params, attr_params_spec};
use crate::doc::{
    attr_decoded_value, objects_in, objects_view, objects_wires, opt_view, ports, ports_spec,
    LoxoneDoc, ObjectSummary, PortView, SObject, SPort, WireView,
};
use crate::strmap::{lemma_str_lt_asymmetric, lemma_str_lt_irreflexive, lemma_str_lt_total,
    lemma_str_lt_transitive, map_get, map_insert, str_lt, str_order, StrMap,
};
use crate::text::{str_ends_with, str_eq, str_starts_with, string_of};
use crate::xml::{Element, SElement};
use vstd::prelude::*;

verus! {

#[derive(Debug, Clone, PartialEq, Eq)]
pub struct DocDiff {
    pub added: Vec<ObjectSummary>,
    pub removed: Vec<ObjectSummary>,
    pub renamed: Vec<Rename>,
    pub param_changes: Vec<ParamChange>,
    pub wires_added: Vec<WireView>,
    pub wires_removed: Vec<WireView>,
}

impl DocDiff {
    pub fn is_empty(&self) -> (r: bool)
        ensures
            r == (self.added@.len() == 0 && self.removed@.len() == 0 && self.renamed@.len() == 0
                && self.param_changes@.len() == 0 && self.wires_added@.len() == 0
                && self.wires_removed@.len() == 0),
    {
        self.added.len() == 0 && self.removed.len() == 0 && self.renamed.len() == 0
            && self.param_changes.len() == 0 && self.wires_added.len() == 0
            && self.wires_removed.len() == 0
    }
}

#[derive(Debug, Clone, PartialEq, Eq)]
pub struct Rename {
    pub uuid: String,
    pub block_type: String,
    pub from: Option<String>,
    pub to: Option<String>,
    /// `true` when this looks like a locale-volatile built-in title rather
    /// than a deliberate user edit.
    pub locale_suspect: bool,
}

pub struct SRename {
    pub uuid: Seq<char>,
    pub block_type: Seq<char>,
    pub from: Option<Seq<char>>,
    pub to: Option<Seq<char>>,
    pub locale_suspect: bool,
}

impl View for Rename {
    type V = SRename;

    open spec fn view(&self) -> SRename {
        SRename {
            uuid: self.uuid@,
            block_type: self.block_type@,
            from: opt_view(self.from),
            to: opt_view(self.to),
            locale_suspect: self.locale_suspect,
        }
    }
}

/// A `Def=` change on one port of an object present in both documents.
#[derive(Debug, Clone, PartialEq, Eq)]
pub struct ParamChange {
    pub object_uuid: String,
    pub block_type: String,
    pub port_key: String,
    pub from: Option<String>,
    pub to: Option<String>,
}

pub struct SParamChange {
    pub object_uuid: Seq<char>,
    pub block_type: Seq<char>,
    pub port_key: Seq<char>,
    pub from: Option<Seq<char>>,
    pub to: Option<Seq<char>>,
}

impl View for ParamChange {
    type V = SParamChange;

    open spec fn view(&self) -> SParamChange {
        SParamChange {
            object_uuid: self.object_uuid@,
            block_type: self.block_type@,
            port_key: self.port_key@,
            from: opt_view(self.from),
            to: opt_view(self.to),
        }
    }
}

// ---------------------------------------------------------------------------
// Specification
// ---------------------------------------------------------------------------

/// UUID → position of the object (the last one, when a UUID repeats), in
/// UUID order.
pub open spec fn uuid_positions(objs: Seq<(SObject, SElement)>) -> Seq<(Seq<char>, usize)>
    decreases objs.len(),
{
    if objs.len() == 0 {
        seq![]
    } else {
        map_insert(
            uuid_positions(objs.drop_last()),
            objs.last().0.uuid,
            (objs.len() - 1) as usize,
        )
    }
}

/// Port key → position of the port (the last one, when a key repeats), in
/// key order.
pub open spec fn key_positions(ps: Seq<SPort>) -> Seq<(Seq<char>, usize)>
    decreases ps.len(),
{
    if ps.len() == 0 {
        seq![]
    } else {
        map_insert(key_positions(ps.drop_last()), ps.last().key, (ps.len() - 1) as usize)
    }
}

/// Titles Loxone Config rewrites on locale change: caption folders,
/// built-in system objects, and objects with system (`00000000-…`) UUIDs.
pub open spec fn locale_suspect_spec(o: SObject) -> bool {
    let sys = "00000000-"@;
    let cap = "Caption"@;
    let t = o.block_type;
    ||| (sys.len() <= o.uuid.len() && o.uuid.subrange(0, sys.len() as int) == sys)
    ||| (cap.len() <= t.len() && t.subrange(t.len() - cap.len(), t.len() as int) == cap)
    ||| t == "Mode"@
    ||| t == "SysVar"@
    ||| t == "GlobalStates"@
    ||| t == "WeatherData"@
    ||| t == "Calendar"@
    ||| t == "CalendarEntry"@
    ||| t == "RemoteControls"@
    ||| t == "MessageCenter"@
    ||| t == "AutoPilot"@
}

pub open spec fn change(
    o: SObject,
    key: Seq<char>,
    from: Option<Seq<char>>,
    to: Option<Seq<char>>,
) -> SParamChange {
    SParamChange { object_uuid: o.uuid, block_type: o.block_type, port_key: key, from, to }
}

/// `Def=` changes of ports `b` has, in key order.
pub open spec fn def_changes(
    o: SObject,
    pa: Seq<SPort>,
    pb: Seq<SPort>,
    mb: Seq<(Seq<char>, usize)>,
) -> Seq<SParamChange>
    decreases mb.len(),
{
    if mb.len() == 0 {
        seq![]
    } else {
        let (k, j) = mb.last();
        let def_b = pb[j as int].def;
        let def_a = match map_get(key_positions(pa), k) {
            Some(i) => pa[i as int].def,
            None => None,
        };
        def_changes(o, pa, pb, mb.drop_last()) + if def_a != def_b {
            seq![change(o, k, def_a, def_b)]
        } else {
            seq![]
        }
    }
}

/// Defaults on ports only `a` has, in key order.
pub open spec fn dropped_defs(
    o: SObject,
    pa: Seq<SPort>,
    pb: Seq<SPort>,
    ma: Seq<(Seq<char>, usize)>,
) -> Seq<SParamChange>
    decreases ma.len(),
{
    if ma.len() == 0 {
        seq![]
    } else {
        let (k, i) = ma.last();
        dropped_defs(o, pa, pb, ma.drop_last()) + if map_get(key_positions(pb), k) is None
            && pa[i as int].def is Some {
            seq![change(o, k, pa[i as int].def, None)]
        } else {
            seq![]
        }
    }
}

/// Changes of attribute parameters `names`.
pub open spec fn attr_changes(
    o: SObject,
    ea: SElement,
    eb: SElement,
    names: Seq<Seq<char>>,
) -> Seq<SParamChange>
    decreases names.len(),
{
    if names.len() == 0 {
        seq![]
    } else {
        let n = names.last();
        let va = attr_decoded_value(ea, n);
        let vb = attr_decoded_value(eb, n);
        attr_changes(o, ea, eb, names.drop_last()) + if va != vb {
            seq![change(o, n, va, vb)]
        } else {
            seq![]
        }
    }
}

/// All parameter changes of one object present in both documents.
pub open spec fn object_changes(a: (SObject, SElement), b: (SObject, SElement)) -> Seq<
    SParamChange,
> {
    let pa = ports_spec(a.1);
    let pb = ports_spec(b.1);
    def_changes(b.0, pa, pb, key_positions(pb)) + dropped_defs(b.0, pa, pb, key_positions(pa))
        + attr_changes(b.0, a.1, b.1, attr_params_spec(b.0.block_type))
}

/// Objects of `b` whose UUID `a` lacks, in UUID order.
pub open spec fn added_spec(
    mb: Seq<(Seq<char>, usize)>,
    ma: Seq<(Seq<char>, usize)>,
    b: Seq<(SObject, SElement)>,
) -> Seq<SObject>
    decreases mb.len(),
{
    if mb.len() == 0 {
        seq![]
    } else {
        let (u, j) = mb.last();
        added_spec(mb.drop_last(), ma, b) + if map_get(ma, u) is None {
            seq![b[j as int].0]
        } else {
            seq![]
        }
    }
}

/// Objects present in both whose title changed, in UUID order.
pub open spec fn renamed_spec(
    mb: Seq<(Seq<char>, usize)>,
    ma: Seq<(Seq<char>, usize)>,
    a: Seq<(SObject, SElement)>,
    b: Seq<(SObject, SElement)>,
) -> Seq<SRename>
    decreases mb.len(),
{
    if mb.len() == 0 {
        seq![]
    } else {
        let (u, j) = mb.last();
        renamed_spec(mb.drop_last(), ma, a, b) + match map_get(ma, u) {
            Some(i) => if a[i as int].0.title != b[j as int].0.title {
                seq![
                    SRename {
                        uuid: u,
                        block_type: b[j as int].0.block_type,
                        from: a[i as int].0.title,
                        to: b[j as int].0.title,
                        locale_suspect: locale_suspect_spec(b[j as int].0),
                    },
                ]
            } else {
                seq![]
            },
            None => seq![],
        }
    }
}

/// Parameter changes of objects present in both, in UUID order.
pub open spec fn params_spec(
    mb: Seq<(Seq<char>, usize)>,
    ma: Seq<(Seq<char>, usize)>,
    a: Seq<(SObject, SElement)>,
    b: Seq<(SObject, SElement)>,
) -> Seq<SParamChange>
    decreases mb.len(),
{
    if mb.len() == 0 {
        seq![]
    } else {
        let (u, j) = mb.last();
        params_spec(mb.drop_last(), ma, a, b) + match map_get(ma, u) {
            Some(i) => object_changes(a[i as int], b[j as int]),
            None => seq![],
        }
    }
}

/// Objects of `a` whose UUID `b` lacks, in UUID order.
pub open spec fn removed_spec(
    ma: Seq<(Seq<char>, usize)>,
    mb: Seq<(Seq<char>, usize)>,
    a: Seq<(SObject, SElement)>,
) -> Seq<SObject>
    decreases ma.len(),
{
    if ma.len() == 0 {
        seq![]
    } else {
        let (u, i) = ma.last();
        removed_spec(ma.drop_last(), mb, a) + if map_get(mb, u) is None {
            seq![a[i as int].0]
        } else {
            seq![]
        }
    }
}

/// The order of wires: by source port, then by sink port.
pub open spec fn wire_lt(x: (Seq<char>, Seq<char>), y: (Seq<char>, Seq<char>)) -> bool {
    str_lt(x.0, y.0) || (x.0 == y.0 && str_lt(x.1, y.1))
}

pub open spec fn strictly_sorted(s: Seq<(Seq<char>, Seq<char>)>) -> bool {
    forall|i: int, j: int| 0 <= i < j < s.len() ==> wire_lt(#[trigger] s[i], #[trigger] s[j])
}

/// Wires of `x` that `y` lacks: each once, in wire order.
pub open spec fn wire_difference(
    r: Seq<(Seq<char>, Seq<char>)>,
    x: Seq<(Seq<char>, Seq<char>)>,
    y: Seq<(Seq<char>, Seq<char>)>,
) -> bool {
    &&& strictly_sorted(r)
    &&& forall|w: (Seq<char>, Seq<char>)| #[trigger] r.contains(w) <==> (x.contains(w) && !y.contains(w))
}

/// The diff of two object lists and wire lists.
pub open spec fn diff_spec(
    a: Seq<(SObject, SElement)>,
    b: Seq<(SObject, SElement)>,
    wa: Seq<(Seq<char>, Seq<char>)>,
    wb: Seq<(Seq<char>, Seq<char>)>,
    d: DocDiff,
) -> bool {
    let ma = uuid_positions(a);
    let mb = uuid_positions(b);
    &&& d.added@.map_values(|o: ObjectSummary| o@) == added_spec(mb, ma, b)
    &&& d.removed@.map_values(|o: ObjectSummary| o@) == removed_spec(ma, mb, a)
    &&& d.renamed@.map_values(|r: Rename| r@) == renamed_spec(mb, ma, a, b)
    &&& d.param_changes@.map_values(|c: ParamChange| c@) == params_spec(mb, ma, a, b)
    &&& wire_difference(d.wires_added@.map_values(|w: WireView| w@), wb, wa)
    &&& wire_difference(d.wires_removed@.map_values(|w: WireView| w@), wa, wb)
}

// ---------------------------------------------------------------------------
// Implementation
// ---------------------------------------------------------------------------

fn opt_copy(o: &Option<String>) -> (r: Option<String>)
    ensures
        opt_view(r) == opt_view(*o),
{
    match o {
        Some(s) => Some(string_of(s.as_str())),
        None => None,
    }
}

fn opt_eq(a: &Option<String>, b: &Option<String>) -> (r: bool)
    ensures
        r == (opt_view(*a) == opt_view(*b)),
{
    match (a, b) {
        (Some(x), Some(y)) => str_eq(x.as_str(), y.as_str()),
        (None, None) => true,
        _ => false,
    }
}

fn copy_summary(o: &ObjectSummary) -> (r: ObjectSummary)
    ensures
        r@ == o@,
{
    let path = o.path.clone();
    assert(path@ =~= o.path@);
    ObjectSummary {
        path,
        uuid: string_of(o.uuid.as_str()),
        block_type: string_of(o.block_type.as_str()),
        title: opt_copy(&o.title),
        iname: opt_copy(&o.iname),
    }
}

fn locale_suspect(o: &ObjectSummary) -> (r: bool)
    ensures
        r == locale_suspect_spec(o@),
{
    let t = o.block_type.as_str();
    str_starts_with(o.uuid.as_str(), "00000000-") || str_ends_with(t, "Caption") || str_eq(
        t,
        "Mode",
    ) || str_eq(t, "SysVar") || str_eq(t, "GlobalStates") || str_eq(t, "WeatherData") || str_eq(
        t,
        "Calendar",
    ) || str_eq(t, "CalendarEntry") || str_eq(t, "RemoteControls") || str_eq(t, "MessageCenter")
        || str_eq(t, "AutoPilot")
}

fn uuid_map(objs: &Vec<ObjectSummary>, els: &Vec<&Element>) -> (r: StrMap<usize>)
    requires
        objs@.len() == els@.len(),
    ensures
        r@ == uuid_positions(objects_view(objs@, els@)),
{
    let ghost ov = objects_view(objs@, els@);
    let mut m: StrMap<usize> = StrMap::new();
    let mut i: usize = 0;
    while i < objs.len()
        invariant
            0 <= i <= objs@.len(),
            objs@.len() == els@.len(),
            ov == objects_view(objs@, els@),
            m@ == uuid_positions(ov.take(i as int)),
        decreases objs@.len() - i,
    {
        proof {
            assert(ov.take(i + 1).drop_last() =~= ov.take(i as int));
            assert(ov.take(i + 1).last().0 == objs@[i as int]@);
        }
        m.insert(string_of(objs[i].uuid.as_str()), i);
        i = i + 1;
    }
    assert(ov.take(ov.len() as int) =~= ov);
    m
}

fn key_map(ps: &Vec<PortView>) -> (r: StrMap<usize>)
    ensures
        r@ == key_positions(ps@.map_values(|p: PortView| p@)),
{
    let ghost pv = ps@.map_values(|p: PortView| p@);
    let mut m: StrMap<usize> = StrMap::new();
    let mut i: usize = 0;
    while i < ps.len()
        invariant
            0 <= i <= ps@.len(),
            pv == ps@.map_values(|p: PortView| p@),
            m@ == key_positions(pv.take(i as int)),
        decreases ps@.len() - i,
    {
        proof {
            assert(pv.take(i + 1).drop_last() =~= pv.take(i as int));
            assert(pv.take(i + 1).last() == ps@[i as int]@);
        }
        m.insert(string_of(ps[i].key.as_str()), i);
        i = i + 1;
    }
    assert(pv.take(pv.len() as int) =~= pv);
    m
}

pub open spec fn changes_view(v: Seq<ParamChange>) -> Seq<SParamChange> {
    v.map_values(|c: ParamChange| c@)
}

fn push_change(
    out: &mut Vec<ParamChange>,
    o: &ObjectSummary,
    key: &str,
    from: Option<String>,
    to: Option<String>,
)
    ensures
        changes_view(final(out)@) == changes_view(old(out)@).push(
            change(o@, key@, opt_view(from), opt_view(to)),
        ),
{
    let ghost b = out@;
    out.push(
        ParamChange {
            object_uuid: string_of(o.uuid.as_str()),
            block_type: string_of(o.block_type.as_str()),
            port_key: string_of(key),
            from,
            to,
        },
    );
    assert(changes_view(out@) =~= changes_view(b).push(
        change(o@, key@, opt_view(from), opt_view(to)),
    ));
}

fn object_changes_exec(
    oa: &ObjectSummary,
    ea: &Element,
    ob: &ObjectSummary,
    eb: &Element,
    out: &mut Vec<ParamChange>,
)
    ensures
        changes_view(final(out)@) == changes_view(old(out)@) + object_changes(
            (oa@, ea@),
            (ob@, eb@),
        ),
{
    let ghost o0 = changes_view(out@);
    let pa = ports(ea);
    let pb = ports(eb);
    let ghost pav = pa@.map_values(|p: PortView| p@);
    let ghost pbv = pb@.map_values(|p: PortView| p@);
    let ma = key_map(&pa);
    let mb = key_map(&pb);
    let ghost mav = ma@;
    let ghost mbv = mb@;
    proof {
        lemma_positions_in_range(pav, seq![]);
        lemma_positions_in_range(pbv, seq![]);
    }
    // Defaults of ports `b` has.
    let mut n: usize = 0;
    while n < mb.len()
        invariant
            0 <= n <= mbv.len(),
            mbv == mb@,
            mav == ma@,
            mav == key_positions(pav),
            mbv == key_positions(pbv),
            pav == pa@.map_values(|p: PortView| p@),
            pbv == pb@.map_values(|p: PortView| p@),
            forall|q: int| 0 <= q < mbv.len() ==> (#[trigger] mbv[q]).1 < pb@.len(),
            changes_view(out@) == o0 + def_changes(ob@, pav, pbv, mbv.take(n as int)),
        decreases mbv.len() - n,
    {
        let key = mb.key_at(n);
        let j = *mb.value_at(n);
        proof {
            assert(mbv.take(n + 1).drop_last() =~= mbv.take(n as int));
            assert(mbv.take(n + 1).last() == (key@, j));
            assert(pbv[j as int] == pb@[j as int]@);
        }
        let def_b = &pb[j].def;
        let def_a: Option<String> = match ma.get(key.as_str()) {
            Some(i) => {
                proof {
                    lemma_positions_in_range(pav, key@);
                    assert(pav[*i as int] == pa@[*i as int]@);
                }
                opt_copy(&pa[*i].def)
            },
            None => None,
        };
        let ghost before = changes_view(out@);
        if !opt_eq(&def_a, def_b) {
            push_change(out, ob, key.as_str(), def_a, opt_copy(def_b));
        }
        proof {
            assert(changes_view(out@) =~= o0 + def_changes(ob@, pav, pbv, mbv.take(n + 1)));
        }
        n = n + 1;
    }
    proof {
        assert(mbv.take(mbv.len() as int) =~= mbv);
    }
    let ghost o1 = changes_view(out@);
    // Defaults on ports only `a` has.
    let mut n: usize = 0;
    while n < ma.len()
        invariant
            0 <= n <= mav.len(),
            mbv == mb@,
            mav == ma@,
            mav == key_positions(pav),
            mbv == key_positions(pbv),
            pav == pa@.map_values(|p: PortView| p@),
            forall|q: int| 0 <= q < mav.len() ==> (#[trigger] mav[q]).1 < pa@.len(),
            changes_view(out@) == o1 + dropped_defs(ob@, pav, pbv, mav.take(n as int)),
        decreases mav.len() - n,
    {
        let key = ma.key_at(n);
        let i = *ma.value_at(n);
        proof {
            assert(mav.take(n + 1).drop_last() =~= mav.take(n as int));
            assert(mav.take(n + 1).last() == (key@, i));
            assert(pav[i as int] == pa@[i as int]@);
        }
        if !mb.contains_key(key.as_str()) && pa[i].def.is_some() {
            push_change(out, ob, key.as_str(), opt_copy(&pa[i].def), None);
        }
        proof {
            assert(changes_view(out@) =~= o1 + dropped_defs(ob@, pav, pbv, mav.take(n + 1)));
        }
        n = n + 1;
    }
    proof {
        assert(mav.take(mav.len() as int) =~= mav);
    }
    let ghost o2 = changes_view(out@);
    // Attribute parameters.
    let names = attr_params(ob.block_type.as_str());
    let ghost nv = names@.map_values(|s: &str| s@);
    let mut n: usize = 0;
    while n < names.len()
        invariant
            0 <= n <= names@.len(),
            nv == names@.map_values(|s: &str| s@),
            nv == attr_params_spec(ob@.block_type),
            changes_view(out@) == o2 + attr_changes(ob@, ea@, eb@, nv.take(n as int)),
        decreases names@.len() - n,
    {
        let name = names[n];
        proof {
            assert(nv.take(n + 1).drop_last() =~= nv.take(n as int));
            assert(nv.take(n + 1).last() == name@);
        }
        let va = ea.attr_decoded(name);
        let vb = eb.attr_decoded(name);
        if !opt_eq(&va, &vb) {
            push_change(out, ob, name, va, vb);
        }
        proof {
            assert(changes_view(out@) =~= o2 + attr_changes(ob@, ea@, eb@, nv.take(n + 1)));
        }
        n = n + 1;
    }
    proof {
        assert(nv.take(nv.len() as int) =~= nv);
        assert(changes_view(out@) =~= o0 + object_changes((oa@, ea@), (ob@, eb@)));
    }
}

proof fn lemma_positions_in_range(ps: Seq<SPort>, k: Seq<char>)
    ensures
        forall|q: int| 0 <= q < key_positions(ps).len() ==> (#[trigger] key_positions(ps)[q]).1
            < ps.len(),
        map_get(key_positions(ps), k) matches Some(i) ==> i < ps.len(),
    decreases ps.len(),
{
    if ps.len() > 0 {
        lemma_positions_in_range(ps.drop_last(), k);
        let m = key_positions(ps.drop_last());
        crate::strmap::lemma_key_index(m, ps.last().key);
        let r = key_positions(ps);
        assert forall|q: int| 0 <= q < r.len() implies (#[trigger] r[q]).1 < ps.len() by {
            lemma_map_insert_values(m, ps.last().key, (ps.len() - 1) as usize, q);
        }
        crate::strmap::lemma_key_index(r, k);
    }
}

proof fn lemma_uuid_positions_in_range(objs: Seq<(SObject, SElement)>, k: Seq<char>)
    ensures
        forall|q: int| 0 <= q < uuid_positions(objs).len() ==> (#[trigger] uuid_positions(
            objs,
        )[q]).1 < objs.len(),
        map_get(uuid_positions(objs), k) matches Some(i) ==> i < objs.len(),
    decreases objs.len(),
{
    if objs.len() > 0 {
        lemma_uuid_positions_in_range(objs.drop_last(), k);
        let m = uuid_positions(objs.drop_last());
        let r = uuid_positions(objs);
        assert forall|q: int| 0 <= q < r.len() implies (#[trigger] r[q]).1 < objs.len() by {
            lemma_map_insert_values(m, objs.last().0.uuid, (objs.len() - 1) as usize, q);
        }
        crate::strmap::lemma_key_index(r, k);
    }
}

/// Every value of `map_insert(m, k, v)` is `v` or a value of `m`.
proof fn lemma_map_insert_values(m: Seq<(Seq<char>, usize)>, k: Seq<char>, v: usize, q: int)
    requires
        0 <= q < map_insert(m, k, v).len(),
    ensures
        map_insert(m, k, v)[q].1 == v || exists|p: int|
            0 <= p < m.len() && m[p].1 == map_insert(m, k, v)[q].1,
{
    let r = map_insert(m, k, v);
    crate::strmap::lemma_key_index(m, k);
    if crate::strmap::key_index(m, k) >= 0 {
        if q != crate::strmap::key_index(m, k) {
            assert(r[q] == m[q]);
        }
    } else {
        let p = crate::strmap::insert_pos(m, k);
        crate::strmap::lemma_insert_pos_range(m, k);
        if q < p {
            assert(r[q] == m[q]);
        } else if q > p {
            assert(r[q] == m[q - 1]);
        }
    }
}

proof fn lemma_wire_lt_irreflexive(x: (Seq<char>, Seq<char>))
    ensures
        !wire_lt(x, x),
{
    lemma_str_lt_irreflexive(x.0);
    lemma_str_lt_irreflexive(x.1);
}

proof fn lemma_wire_lt_transitive(
    x: (Seq<char>, Seq<char>),
    y: (Seq<char>, Seq<char>),
    z: (Seq<char>, Seq<char>),
)
    requires
        wire_lt(x, y),
        wire_lt(y, z),
    ensures
        wire_lt(x, z),
{
    if str_lt(x.0, y.0) && str_lt(y.0, z.0) {
        lemma_str_lt_transitive(x.0, y.0, z.0);
    }
    if x.0 == y.0 && y.0 == z.0 {
        lemma_str_lt_irreflexive(x.0);
        lemma_str_lt_transitive(x.1, y.1, z.1);
    }
}

proof fn lemma_wire_lt_total(x: (Seq<char>, Seq<char>), y: (Seq<char>, Seq<char>))
    ensures
        wire_lt(x, y) || x == y || wire_lt(y, x),
{
    lemma_str_lt_total(x.0, y.0);
    lemma_str_lt_total(x.1, y.1);
}

proof fn lemma_wire_lt_asymmetric(x: (Seq<char>, Seq<char>), y: (Seq<char>, Seq<char>))
    ensures
        !(wire_lt(x, y) && wire_lt(y, x)),
{
    lemma_str_lt_asymmetric(x.0, y.0);
    lemma_str_lt_asymmetric(x.1, y.1);
    lemma_str_lt_irreflexive(x.0);
}

fn wire_lt_exec(x: &WireView, y: &WireView) -> (r: bool)
    ensures
        r == wire_lt(x@, y@),
{
    let c = str_order(x.from_port.as_str(), y.from_port.as_str());
    if c == -1 {
        true
    } else if c == 0 {
        str_order(x.to_port.as_str(), y.to_port.as_str()) == -1
    } else {
        proof {
            lemma_str_lt_asymmetric(x@.0, y@.0);
        }
        false
    }
}

fn wire_eq(x: &WireView, y: &WireView) -> (r: bool)
    ensures
        r == (x@ == y@),
{
    str_eq(x.from_port.as_str(), y.from_port.as_str()) && str_eq(
        x.to_port.as_str(),
        y.to_port.as_str(),
    )
}

pub open spec fn wires_view(v: Seq<WireView>) -> Seq<(Seq<char>, Seq<char>)> {
    v.map_values(|w: WireView| w@)
}

fn wires_contain(v: &Vec<WireView>, w: &WireView) -> (r: bool)
    ensures
        r == wires_view(v@).contains(w@),
{
    let mut i: usize = 0;
    while i < v.len()
        invariant
            0 <= i <= v@.len(),
            forall|j: int| 0 <= j < i ==> v@[j]@ != w@,
        decreases v@.len() - i,
    {
        if wire_eq(&v[i], w) {
            assert(wires_view(v@)[i as int] == w@);
            return true;
        }
        i = i + 1;
    }
    proof {
        if wires_view(v@).contains(w@) {
            let j = choose|j: int| 0 <= j < wires_view(v@).len() && wires_view(v@)[j] == w@;
            assert(v@[j]@ == w@);
        }
    }
    false
}

/// Add `w` to a strictly sorted wire list (nothing when already there).
fn insert_wire(set: &mut Vec<WireView>, w: WireView)
    requires
        strictly_sorted(wires_view(old(set)@)),
    ensures
        strictly_sorted(wires_view(final(set)@)),
        forall|x: (Seq<char>, Seq<char>)|
            #[trigger] wires_view(final(set)@).contains(x) <==> (wires_view(old(set)@).contains(x)
                || x == w@),
{
    let ghost s0 = wires_view(set@);
    let mut i: usize = 0;
    while i < set.len() && wire_lt_exec(&set[i], &w)
        invariant
            0 <= i <= set@.len(),
            s0 == wires_view(set@),
            strictly_sorted(s0),
            forall|j: int| 0 <= j < i ==> wire_lt(#[trigger] s0[j], w@),
        decreases set@.len() - i,
    {
        i = i + 1;
    }
    if i < set.len() && wire_eq(&set[i], &w) {
        proof {
            assert(s0[i as int] == w@);
            assert forall|x: (Seq<char>, Seq<char>)| #[trigger] s0.contains(x) <==> (s0.contains(x)
                || x == w@) by {
                if x == w@ {
                    assert(s0[i as int] == x);
                }
            }
        }
        return ;
    }
    proof {
        if i < set.len() {
            lemma_wire_lt_total(s0[i as int], w@);
        }
    }
    let ghost wv = w@;
    set.insert(i, w);
    proof {
        let s1 = wires_view(set@);
        assert(s1 =~= s0.insert(i as int, wv));
        assert forall|a: int, b: int| 0 <= a < b < s1.len() implies wire_lt(
            #[trigger] s1[a],
            #[trigger] s1[b],
        ) by {
            if b < i {
                assert(s1[a] == s0[a] && s1[b] == s0[b]);
            } else if b == i {
                assert(s1[a] == s0[a]);
            } else if a == i {
                assert(s1[b] == s0[b - 1]);
                if b - 1 > i {
                    lemma_wire_lt_transitive(wv, s0[i as int], s0[b - 1]);
                }
            } else if a < i {
                assert(s1[a] == s0[a] && s1[b] == s0[b - 1]);
            } else {
                assert(s1[a] == s0[a - 1] && s1[b] == s0[b - 1]);
            }
        }
        assert forall|x: (Seq<char>, Seq<char>)| #[trigger] s1.contains(x) <==> (s0.contains(x)
            || x == wv) by {
            if s1.contains(x) {
                let q = choose|q: int| 0 <= q < s1.len() && s1[q] == x;
                if q < i {
                    assert(s0[q] == x);
                } else if q > i {
                    assert(s0[q - 1] == x);
                }
            }
            if s0.contains(x) {
                let q = choose|q: int| 0 <= q < s0.len() && s0[q] == x;
                if q < i {
                    assert(s1[q] == x);
                } else {
                    assert(s1[q + 1] == x);
                }
            }
            if x == wv {
                assert(s1[i as int] == x);
            }
        }
    }
}

/// The wires of `x` that `y` lacks, each once, in wire order.
fn wire_diff(x: &Vec<WireView>, y: &Vec<WireView>) -> (r: Vec<WireView>)
    ensures
        wire_difference(wires_view(r@), wires_view(x@), wires_view(y@)),
{
    let ghost xv = wires_view(x@);
    let ghost yv = wires_view(y@);
    let mut out: Vec<WireView> = Vec::new();
    let mut i: usize = 0;
    while i < x.len()
        invariant
            0 <= i <= x@.len(),
            xv == wires_view(x@),
            yv == wires_view(y@),
            strictly_sorted(wires_view(out@)),
            forall|w: (Seq<char>, Seq<char>)|
                #[trigger] wires_view(out@).contains(w) <==> (xv.take(i as int).contains(w)
                    && !yv.contains(w)),
        decreases x@.len() - i,
    {
        let w = &x[i];
        let ghost wv = w@;
        let ghost pre = xv.take(i as int);
        proof {
            assert(xv.take(i + 1) =~= pre.push(wv));
        }
        if !wires_contain(y, w) {
            insert_wire(&mut out, WireView {
                from_port: string_of(w.from_port.as_str()),
                to_port: string_of(w.to_port.as_str()),
            });
        }
        proof {
            let post = xv.take(i + 1);
            assert forall|z: (Seq<char>, Seq<char>)| #[trigger] post.contains(z) <==> (
            pre.contains(z) || z == wv) by {
                if post.contains(z) {
                    let q = choose|q: int| 0 <= q < post.len() && #[trigger] post[q] == z;
                    if q < i {
                        assert(pre[q] == z);
                    }
                }
                if pre.contains(z) {
                    let q = choose|q: int| 0 <= q < pre.len() && #[trigger] pre[q] == z;
                    assert(post[q] == z);
                }
                if z == wv {
                    assert(post[i as int] == z);
                }
            }
        }
        i = i + 1;
    }
    assert(xv.take(xv.len() as int) =~= xv);
    out
}

/// Compare two documents object-by-object (matched on UUID).
pub fn diff(a: &LoxoneDoc, b: &LoxoneDoc) -> (d: DocDiff)
    ensures
        diff_spec(
            objects_in(a@.root, seq![]),
            objects_in(b@.root, seq![]),
            objects_wires(objects_in(a@.root, seq![])),
            objects_wires(objects_in(b@.root, seq![])),
            d,
        ),
{
    let (objs_a, els_a) = a.object_entries();
    let (objs_b, els_b) = b.object_entries();
    let ghost av = objects_view(objs_a@, els_a@);
    let ghost bv = objects_view(objs_b@, els_b@);
    let ma = uuid_map(&objs_a, &els_a);
    let mb = uuid_map(&objs_b, &els_b);
    let ghost mav = ma@;
    let ghost mbv = mb@;
    proof {
        lemma_uuid_positions_in_range(av, seq![]);
        lemma_uuid_positions_in_range(bv, seq![]);
    }
    let mut added: Vec<ObjectSummary> = Vec::new();
    let mut renamed: Vec<Rename> = Vec::new();
    let mut param_changes: Vec<ParamChange> = Vec::new();
    let mut n: usize = 0;
    while n < mb.len()
        invariant
            0 <= n <= mbv.len(),
            mav == ma@,
            mbv == mb@,
            objs_a@.len() == els_a@.len(),
            objs_b@.len() == els_b@.len(),
            av == objects_view(objs_a@, els_a@),
            bv == objects_view(objs_b@, els_b@),
            mav == uuid_positions(av),
            mbv == uuid_positions(bv),
            forall|q: int| 0 <= q < mav.len() ==> (#[trigger] mav[q]).1 < av.len(),
            forall|q: int| 0 <= q < mbv.len() ==> (#[trigger] mbv[q]).1 < bv.len(),
            added@.map_values(|o: ObjectSummary| o@) == added_spec(mbv.take(n as int), mav, bv),
            renamed@.map_values(|r: Rename| r@) == renamed_spec(mbv.take(n as int), mav, av, bv),
            changes_view(param_changes@) == params_spec(mbv.take(n as int), mav, av, bv),
        decreases mbv.len() - n,
    {
        let uuid = mb.key_at(n);
        let j = *mb.value_at(n);
        let ghost pre = mbv.take(n as int);
        proof {
            assert(mbv.take(n + 1).drop_last() =~= pre);
            assert(mbv.take(n + 1).last() == (uuid@, j));
            assert(bv[j as int] == (objs_b@[j as int]@, els_b@[j as int]@));
        }
        let ob = &objs_b[j];
        let ghost a0 = added@;
        let ghost r0 = renamed@;
        match ma.get(uuid.as_str()) {
            None => {
                added.push(copy_summary(ob));
                proof {
                    assert(added@.map_values(|o: ObjectSummary| o@) =~= a0.map_values(
                        |o: ObjectSummary| o@,
                    ).push(ob@));
                }
            },
            Some(ip) => {
                let i = *ip;
                proof {
                    crate::strmap::lemma_key_index(mav, uuid@);
                    assert(av[i as int] == (objs_a@[i as int]@, els_a@[i as int]@));
                }
                let oa = &objs_a[i];
                if !opt_eq(&oa.title, &ob.title) {
                    renamed.push(
                        Rename {
                            uuid: string_of(uuid.as_str()),
                            block_type: string_of(ob.block_type.as_str()),
                            from: opt_copy(&oa.title),
                            to: opt_copy(&ob.title),
                            locale_suspect: locale_suspect(ob),
                        },
                    );
                }
                proof {
                    assert(renamed@.map_values(|r: Rename| r@) =~= renamed_spec(
                        mbv.take(n + 1),
                        mav,
                        av,
                        bv,
                    ));
                }
                object_changes_exec(oa, els_a[i], ob, els_b[j], &mut param_changes);
            },
        }
        proof {
            assert(added@.map_values(|o: ObjectSummary| o@) =~= added_spec(
                mbv.take(n + 1),
                mav,
                bv,
            ));
            assert(renamed@.map_values(|r: Rename| r@) =~= renamed_spec(
                mbv.take(n + 1),
                mav,
                av,
                bv,
            ));
            assert(changes_view(param_changes@) =~= params_spec(mbv.take(n + 1), mav, av, bv));
        }
        n = n + 1;
    }
    proof {
        assert(mbv.take(mbv.len() as int) =~= mbv);
    }
    let mut removed: Vec<ObjectSummary> = Vec::new();
    let mut n: usize = 0;
    while n < ma.len()
        invariant
            0 <= n <= mav.len(),
            mav == ma@,
            mbv == mb@,
            objs_a@.len() == els_a@.len(),
            av == objects_view(objs_a@, els_a@),
            forall|q: int| 0 <= q < mav.len() ==> (#[trigger] mav[q]).1 < av.len(),
            removed@.map_values(|o: ObjectSummary| o@) == removed_spec(
                mav.take(n as int),
                mbv,
                av,
            ),
        decreases mav.len() - n,
    {
        let uuid = ma.key_at(n);
        let i = *ma.value_at(n);
        proof {
            assert(mav.take(n + 1).drop_last() =~= mav.take(n as int));
            assert(mav.take(n + 1).last() == (uuid@, i));
            assert(av[i as int].0 == objs_a@[i as int]@);
        }
        let ghost r0 = removed@;
        if !mb.contains_key(uuid.as_str()) {
            removed.push(copy_summary(&objs_a[i]));
        }
        proof {
            assert(removed@.map_values(|o: ObjectSummary| o@) =~= removed_spec(
                mav.take(n + 1),
                mbv,
                av,
            ));
        }
        n = n + 1;
    }
    proof {
        assert(mav.take(mav.len() as int) =~= mav);
    }
    let wires_a = a.wires();
    let wires_b = b.wires();
    let wires_added = wire_diff(&wires_b, &wires_a);
    let wires_removed = wire_diff(&wires_a, &wires_b);
    DocDiff { added, removed, renamed, param_changes, wires_added, wires_removed }
}

// ---------------------------------------------------------------------------
// A document against itself
// ---------------------------------------------------------------------------

proof fn lemma_uuid_positions_sorted(objs: Seq<(SObject, SElement)>)
    ensures
        crate::strmap::sorted_keys(uuid_positions(objs)),
    decreases objs.len(),
{
    if objs.len() > 0 {
        lemma_uuid_positions_sorted(objs.drop_last());
        crate::strmap::lemma_insert_sorted(uuid_positions(objs.drop_last()), objs.last().0.uuid, (objs.len() - 1) as usize);
    }
}

proof fn lemma_key_positions_sorted(ps: Seq<SPort>)
    ensures
        crate::strmap::sorted_keys(key_positions(ps)),
    decreases ps.len(),
{
    if ps.len() > 0 {
        lemma_key_positions_sorted(ps.drop_last());
        crate::strmap::lemma_insert_sorted(key_positions(ps.drop_last()), ps.last().key, (ps.len() - 1) as usize);
    }
}

/// In a map with unique keys, looking up an entry's key finds the entry.
proof fn lemma_get_entry(m: Seq<(Seq<char>, usize)>, q: int)
    requires
        crate::strmap::sorted_keys(m),
        0 <= q < m.len(),
    ensures
        map_get(m, m[q].0) == Some(m[q].1),
{
    crate::strmap::lemma_key_index_unique(m, m[q].0, q);
}

proof fn lemma_self_added_removed(m: Seq<(Seq<char>, usize)>, a: Seq<(SObject, SElement)>, n: int)
    requires
        crate::strmap::sorted_keys(m),
        0 <= n <= m.len(),
    ensures
        added_spec(m.take(n), m, a).len() == 0,
        removed_spec(m.take(n), m, a).len() == 0,
        renamed_spec(m.take(n), m, a, a).len() == 0,
    decreases n,
{
    if n > 0 {
        assert(m.take(n).drop_last() =~= m.take(n - 1));
        assert(m.take(n).last() == m[n - 1]);
        lemma_self_added_removed(m, a, n - 1);
        lemma_get_entry(m, n - 1);
    }
}

proof fn lemma_attr_changes_self(o: SObject, e: SElement, names: Seq<Seq<char>>)
    ensures
        attr_changes(o, e, e, names).len() == 0,
    decreases names.len(),
{
    if names.len() > 0 {
        lemma_attr_changes_self(o, e, names.drop_last());
    }
}

proof fn lemma_port_changes_self(o: SObject, ps: Seq<SPort>, n: int)
    requires
        0 <= n <= key_positions(ps).len(),
    ensures
        def_changes(o, ps, ps, key_positions(ps).take(n)).len() == 0,
        dropped_defs(o, ps, ps, key_positions(ps).take(n)).len() == 0,
    decreases n,
{
    let m = key_positions(ps);
    lemma_key_positions_sorted(ps);
    if n > 0 {
        assert(m.take(n).drop_last() =~= m.take(n - 1));
        assert(m.take(n).last() == m[n - 1]);
        lemma_port_changes_self(o, ps, n - 1);
        lemma_get_entry(m, n - 1);
    }
}

proof fn lemma_object_changes_self(x: (SObject, SElement))
    ensures
        object_changes(x, x).len() == 0,
{
    let ps = ports_spec(x.1);
    let m = key_positions(ps);
    lemma_port_changes_self(x.0, ps, m.len() as int);
    assert(m.take(m.len() as int) =~= m);
    lemma_attr_changes_self(x.0, x.1, attr_params_spec(x.0.block_type));
}

proof fn lemma_self_params(m: Seq<(Seq<char>, usize)>, a: Seq<(SObject, SElement)>, n: int)
    requires
        crate::strmap::sorted_keys(m),
        0 <= n <= m.len(),
    ensures
        params_spec(m.take(n), m, a, a).len() == 0,
    decreases n,
{
    if n > 0 {
        assert(m.take(n).drop_last() =~= m.take(n - 1));
        assert(m.take(n).last() == m[n - 1]);
        lemma_self_params(m, a, n - 1);
        lemma_get_entry(m, n - 1);
        lemma_object_changes_self(a[m[n - 1].1 as int]);
    }
}

proof fn lemma_self_wire_difference(r: Seq<(Seq<char>, Seq<char>)>, w: Seq<(Seq<char>, Seq<char>)>)
    requires
        wire_difference(r, w, w),
    ensures
        r.len() == 0,
{
    if r.len() > 0 {
        assert(r.contains(r[0]));
    }
}

/// A document diffed against itself is empty: nothing added, removed,
/// renamed or changed, and no wire added or removed.
pub proof fn diff_of_identical_is_empty(a: Seq<(SObject, SElement)>, wa: Seq<(Seq<char>, Seq<char>)>, d: DocDiff)
    requires
        diff_spec(a, a, wa, wa, d),
    ensures
        d.added@.len() == 0,
        d.removed@.len() == 0,
        d.renamed@.len() == 0,
        d.param_changes@.len() == 0,
        d.wires_added@.len() == 0,
        d.wires_removed@.len() == 0,
{
    let m = uuid_positions(a);
    lemma_uuid_positions_sorted(a);
    assert(m.take(m.len() as int) =~= m);
    lemma_self_added_removed(m, a, m.len() as int);
    lemma_self_params(m, a, m.len() as int);
    lemma_self_wire_difference(d.wires_added@.map_values(|w: WireView| w@), wa);
    lemma_self_wire_difference(d.wires_removed@.map_values(|w: WireView| w@), wa);
}

proof fn lemma_added_is_removed(x: Seq<(Seq<char>, usize)>, y: Seq<(Seq<char>, usize)>, o: Seq<(SObject, SElement)>)
    ensures
        added_spec(x, y, o) == removed_spec(x, y, o),
    decreases x.len(),
{
    if x.len() > 0 {
        lemma_added_is_removed(x.drop_last(), y, o);
    }
}

proof fn lemma_wire_lt_strict(x: (Seq<char>, Seq<char>), y: (Seq<char>, Seq<char>))
    ensures
        !wire_lt(x, x),
        !(wire_lt(x, y) && wire_lt(y, x)),
{
    lemma_str_lt_irreflexive(x.0);
    lemma_str_lt_irreflexive(x.1);
    lemma_str_lt_asymmetric(x.0, y.0);
    lemma_str_lt_asymmetric(x.1, y.1);
    lemma_str_lt_irreflexive(y.0);
}

/// Two strictly sorted wire lists with the same members are equal.
proof fn lemma_sorted_unique(r1: Seq<(Seq<char>, Seq<char>)>, r2: Seq<(Seq<char>, Seq<char>)>)
    requires
        strictly_sorted(r1),
        strictly_sorted(r2),
        forall|w: (Seq<char>, Seq<char>)| r1.contains(w) <==> r2.contains(w),
    ensures
        r1 == r2,
    decreases r1.len(),
{
    if r1.len() == 0 {
        if r2.len() > 0 {
            assert(r2.contains(r2[0]));
        }
        assert(r1 =~= r2);
    } else {
        assert(r1.contains(r1[0]));
        let k = choose|k: int| 0 <= k < r2.len() && r2[k] == r1[0];
        assert(r2.contains(r2[0]));
        let m = choose|m: int| 0 <= m < r1.len() && r1[m] == r2[0];
        lemma_wire_lt_strict(r1[0], r2[0]);
        if k > 0 {
            assert(wire_lt(r2[0], r2[k]));
            if m > 0 {
                assert(wire_lt(r1[0], r1[m]));
            }
        }
        assert(r1[0] == r2[0]);
        let t1 = r1.drop_first();
        let t2 = r2.drop_first();
        assert forall|w: (Seq<char>, Seq<char>)| t1.contains(w) <==> t2.contains(w) by {
            if t1.contains(w) {
                let i = choose|i: int| 0 <= i < t1.len() && t1[i] == w;
                assert(r1[i + 1] == w);
                assert(wire_lt(r1[0], r1[i + 1]));
                lemma_wire_lt_strict(w, w);
                assert(r2.contains(w));
                let j = choose|j: int| 0 <= j < r2.len() && r2[j] == w;
                assert(j != 0);
                assert(t2[j - 1] == w);
            }
            if t2.contains(w) {
                let i = choose|i: int| 0 <= i < t2.len() && t2[i] == w;
                assert(r2[i + 1] == w);
                assert(wire_lt(r2[0], r2[i + 1]));
                lemma_wire_lt_strict(w, w);
                assert(r1.contains(w));
                let j = choose|j: int| 0 <= j < r1.len() && r1[j] == w;
                assert(j != 0);
                assert(t1[j - 1] == w);
            }
        }
        lemma_sorted_unique(t1, t2);
        assert(r1 =~= r2) by {
            assert forall|i: int| 0 <= i < r1.len() implies r1[i] == r2[i] by {
                if i > 0 {
                    assert(r1[i] == t1[i - 1]);
                    assert(r2[i] == t2[i - 1]);
                }
            }
        }
    }
}

/// Swapping the documents swaps additions and removals: what `a → b` adds,
/// `b → a` removes, for objects and wires alike.
pub proof fn diff_swaps_with_its_arguments(
    a: Seq<(SObject, SElement)>,
    b: Seq<(SObject, SElement)>,
    wa: Seq<(Seq<char>, Seq<char>)>,
    wb: Seq<(Seq<char>, Seq<char>)>,
    ab: DocDiff,
    ba: DocDiff,
)
    requires
        diff_spec(a, b, wa, wb, ab),
        diff_spec(b, a, wb, wa, ba),
    ensures
        ab.added@.map_values(|o: ObjectSummary| o@) == ba.removed@.map_values(|o: ObjectSummary| o@),
        ab.removed@.map_values(|o: ObjectSummary| o@) == ba.added@.map_values(|o: ObjectSummary| o@),
        ab.wires_added@.map_values(|w: WireView| w@) == ba.wires_removed@.map_values(|w: WireView| w@),
        ab.wires_removed@.map_values(|w: WireView| w@) == ba.wires_added@.map_values(|w: WireView| w@),
{
    lemma_added_is_removed(uuid_positions(b), uuid_positions(a), b);
    lemma_added_is_removed(uuid_positions(a), uuid_positions(b), a);
    let x1 = ab.wires_added@.map_values(|w: WireView| w@);
    let y1 = ba.wires_removed@.map_values(|w: WireView| w@);
    assert forall|w: (Seq<char>, Seq<char>)| x1.contains(w) <==> y1.contains(w) by {
        assert(x1.contains(w) <==> (wb.contains(w) && !wa.contains(w)));
        assert(y1.contains(w) <==> (wb.contains(w) && !wa.contains(w)));
    }
    lemma_sorted_unique(x1, y1);
    let x2 = ab.wires_removed@.map_values(|w: WireView| w@);
    let y2 = ba.wires_added@.map_values(|w: WireView| w@);
    assert forall|w: (Seq<char>, Seq<char>)| x2.contains(w) <==> y2.contains(w) by {
        assert(x2.contains(w) <==> (wa.contains(w) && !wb.contains(w)));
        assert(y2.contains(w) <==> (wa.contains(w) && !wb.contains(w)));
    }
    lemma_sorted_unique(x2, y2);
}

proof fn lemma_uuid_positions_get(objs: Seq<(SObject, SElement)>, k: Seq<char>)
    requires
        objs.len() <= usize::MAX,
    ensures
        map_get(uuid_positions(objs), k) matches Some(i) ==> i < objs.len() && objs[i as int].0.uuid == k,
    decreases objs.len(),
{
    if objs.len() > 0 {
        lemma_uuid_positions_get(objs.drop_last(), k);
        lemma_uuid_positions_sorted(objs.drop_last());
        crate::strmap::lemma_insert_sorted(uuid_positions(objs.drop_last()), objs.last().0.uuid, (objs.len() - 1) as usize);
        if let Some(i) = map_get(uuid_positions(objs), k) {
            if k != objs.last().0.uuid {
                assert(objs.drop_last()[i as int] == objs[i as int]);
            }
        }
    }
}

/// Each entry of the UUID map points at an object with that UUID.
proof fn lemma_uuid_positions_entry(objs: Seq<(SObject, SElement)>, q: int)
    requires
        objs.len() <= usize::MAX,
        0 <= q < uuid_positions(objs).len(),
    ensures
        uuid_positions(objs)[q].1 < objs.len(),
        objs[uuid_positions(objs)[q].1 as int].0.uuid == uuid_positions(objs)[q].0,
{
    let m = uuid_positions(objs);
    lemma_uuid_positions_sorted(objs);
    crate::strmap::lemma_key_index_unique(m, m[q].0, q);
    lemma_uuid_positions_get(objs, m[q].0);
}

proof fn lemma_renamed_titles(
    mb: Seq<(Seq<char>, usize)>,
    a: Seq<(SObject, SElement)>,
    b: Seq<(SObject, SElement)>,
    n: int,
)
    requires
        a.len() <= usize::MAX,
        b.len() <= usize::MAX,
        mb == uuid_positions(b),
        0 <= n <= mb.len(),
    ensures
        forall|k: int|
            0 <= k < renamed_spec(mb.take(n), uuid_positions(a), a, b).len() ==> exists|i: int, j: int|
                0 <= i < a.len() && 0 <= j < b.len() && a[i].0.uuid == #[trigger] renamed_spec(
                    mb.take(n),
                    uuid_positions(a),
                    a,
                    b,
                )[k].uuid && b[j].0.uuid == renamed_spec(mb.take(n), uuid_positions(a), a, b)[k].uuid
                    && renamed_spec(mb.take(n), uuid_positions(a), a, b)[k].from == a[i].0.title
                    && renamed_spec(mb.take(n), uuid_positions(a), a, b)[k].to == b[j].0.title
                    && a[i].0.title != b[j].0.title,
    decreases n,
{
    let ma = uuid_positions(a);
    if n > 0 {
        lemma_renamed_titles(mb, a, b, n - 1);
        let t = mb.take(n);
        assert(t.drop_last() =~= mb.take(n - 1));
        let prev = renamed_spec(mb.take(n - 1), ma, a, b);
        let cur = renamed_spec(t, ma, a, b);
        let (u, j) = t.last();
        lemma_uuid_positions_entry(b, n - 1);
        lemma_uuid_positions_get(a, u);
        assert forall|k: int| 0 <= k < cur.len() implies exists|i: int, j2: int|
            0 <= i < a.len() && 0 <= j2 < b.len() && a[i].0.uuid == #[trigger] cur[k].uuid && b[j2].0.uuid == cur[k].uuid
                && cur[k].from == a[i].0.title && cur[k].to == b[j2].0.title && a[i].0.title != b[j2].0.title by {
            if k < prev.len() {
                assert(cur[k] == prev[k]);
            } else {
                let i = map_get(ma, u)->0;
                assert(a[i as int].0.uuid == u);
                assert(b[j as int].0.uuid == u);
            }
        }
    }
}

/// A rename goes from the object's title in the first document to its title
/// in the second: each entry names a UUID that both documents carry, its
/// `from` is that object's title in `a`, its `to` the title in `b`, and the
/// two differ.
pub proof fn renames_go_from_first_title_to_second(
    a: Seq<(SObject, SElement)>,
    b: Seq<(SObject, SElement)>,
    wa: Seq<(Seq<char>, Seq<char>)>,
    wb: Seq<(Seq<char>, Seq<char>)>,
    d: DocDiff,
)
    requires
        a.len() <= usize::MAX,
        b.len() <= usize::MAX,
        diff_spec(a, b, wa, wb, d),
    ensures
        forall|k: int|
            0 <= k < d.renamed@.len() ==> exists|i: int, j: int|
                0 <= i < a.len() && 0 <= j < b.len() && a[i].0.uuid == (#[trigger] d.renamed@[k])@.uuid && b[j].0.uuid
                    == d.renamed@[k]@.uuid && d.renamed@[k]@.from == a[i].0.title && d.renamed@[k]@.to
                    == b[j].0.title && a[i].0.title != b[j].0.title,
{
    let mb = uuid_positions(b);
    lemma_renamed_titles(mb, a, b, mb.len() as int);
    assert(mb.take(mb.len() as int) =~= mb);
    let r = renamed_spec(mb, uuid_positions(a), a, b);
    assert forall|k: int| 0 <= k < d.renamed@.len() implies exists|i: int, j: int|
        0 <= i < a.len() && 0 <= j < b.len() && a[i].0.uuid == (#[trigger] d.renamed@[k])@.uuid && b[j].0.uuid
            == d.renamed@[k]@.uuid && d.renamed@[k]@.from == a[i].0.title && d.renamed@[k]@.to
            == b[j].0.title && a[i].0.title != b[j].0.title by {
        assert(d.renamed@.map_values(|x: Rename| x@)[k] == r[k]);
    }
}

} // verus!
