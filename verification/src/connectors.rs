//! Port-direction knowledge.
//!
//! Two sources, kept deliberately separate:
//!
//! 1. A small **builtin table** of block types the IR compiler may mint.
//!    Every entry has been verified against real Miniserver configs. The
//!    list order is the connector-index order used in port UUIDs.
//!
//! 2. **Evidence-based inference** ([`observe`]) over real configs: which
//!    keys occur per type, at which connector index, whether they carry
//!    incoming wires (input), are referenced as a wire source (output), or
//!    hold `Def=` values (parameter).
use crate::doc::{
    last_assigned, objects_in, objects_view, objects_wires, ports, ports_spec, LoxoneDoc, PortView,
    SObject, SPort, WireView,
};
use crate::error::{debug_quoted, push_debug_quoted};
use crate::strmap::{map_get, map_keys, StrMap};
use crate::text::{push_str, str_eq, string_of};
use crate::uuid::{uuid_parse, uuid_parse_panics, LoxUuid, UuidParse};
use crate::xml::SElement;
use vstd::prelude::*;

verus! {

#[derive(Debug, Clone, Copy, PartialEq, Eq, Structural)]
pub enum PortDir {
    Input,
    Output,
    Param,
}

#[derive(Debug, Clone, Copy, PartialEq, Eq)]
pub struct PortSpec {
    pub key: &'static str,
    pub dir: PortDir,
}

/// The verified port tables, by block type; order = connector-index order.
pub open spec fn builtin_spec(t: Seq<char>) -> Option<Seq<(Seq<char>, PortDir)>> {
    if t == "And"@ || t == "Or"@ {
        Some(seq![("I1"@, PortDir::Input), ("I2"@, PortDir::Input), ("Q"@, PortDir::Output)])
    } else if t == "Not"@ {
        Some(seq![("I"@, PortDir::Input), ("Q"@, PortDir::Output)])
    } else if t == "Equal"@ || t == "NotEqual"@ || t == "Greater"@ || t == "GreaterEqual"@ || t
        == "Less"@ || t == "LessEqual"@ {
        Some(
            seq![("Input1"@, PortDir::Input), ("Input2"@, PortDir::Input), ("Q"@, PortDir::Output)],
        )
    } else if t == "Formula"@ {
        Some(
            seq![
                ("Input1"@, PortDir::Input),
                ("Input2"@, PortDir::Input),
                ("Input3"@, PortDir::Input),
                ("Input4"@, PortDir::Input),
                ("AQ"@, PortDir::Output),
                ("TQ"@, PortDir::Output),
            ],
        )
    } else if t == "Monoflop"@ {
        Some(
            seq![
                ("InputTrigger"@, PortDir::Input),
                ("Reset"@, PortDir::Input),
                ("Remanence"@, PortDir::Input),
                ("Time"@, PortDir::Param),
                ("Q"@, PortDir::Output),
            ],
        )
    } else if t == "PulseGen"@ {
        Some(
            seq![
                ("InputEnable"@, PortDir::Input),
                ("InputInvert"@, PortDir::Input),
                ("Remanence"@, PortDir::Input),
                ("TimeHigh"@, PortDir::Param),
                ("TimeLow"@, PortDir::Param),
                ("Q"@, PortDir::Output),
            ],
        )
    } else if t == "AnalogThresholdTrigger"@ {
        Some(
            seq![
                ("Input"@, PortDir::Input),
                ("Remanence"@, PortDir::Input),
                ("On"@, PortDir::Param),
                ("Off"@, PortDir::Param),
                ("PulseTime"@, PortDir::Param),
                ("Q"@, PortDir::Output),
                ("RisingEdge"@, PortDir::Output),
                ("FallingEdge"@, PortDir::Output),
            ],
        )
    } else {
        None
    }
}

pub open spec fn specs_view(v: Seq<PortSpec>) -> Seq<(Seq<char>, PortDir)> {
    v.map_values(|p: PortSpec| (p.key@, p.dir))
}

fn ps(key: &'static str, dir: PortDir) -> (p: PortSpec)
    ensures
        p.key == key && p.dir == dir,
{
    PortSpec { key, dir }
}

/// The block types with a verified port table, in table order.
pub open spec fn builtin_type_names() -> Seq<Seq<char>> {
    seq![
        "And"@,
        "Or"@,
        "Not"@,
        "Equal"@,
        "NotEqual"@,
        "Greater"@,
        "GreaterEqual"@,
        "Less"@,
        "LessEqual"@,
        "Formula"@,
        "Monoflop"@,
        "PulseGen"@,
        "AnalogThresholdTrigger"@,
    ]
}

/// Every block type `builtin` knows — the complete mintable set.
pub fn builtin_types() -> (r: Vec<&'static str>)
    ensures
        r@.len() == 13,
        r@.map_values(|s: &str| s@) == builtin_type_names(),
        forall|i: int| 0 <= i < r@.len() ==> builtin_spec(#[trigger] r@[i]@) is Some,
{
    let r = vec![
        "And",
        "Or",
        "Not",
        "Equal",
        "NotEqual",
        "Greater",
        "GreaterEqual",
        "Less",
        "LessEqual",
        "Formula",
        "Monoflop",
        "PulseGen",
        "AnalogThresholdTrigger",
    ];
    proof {
        assert forall|i: int| 0 <= i < r@.len() implies builtin_spec(#[trigger] r@[i]@) is Some by {
            if i == 0 {
                assert(r@[i] == "And");
            } else if i == 1 {
                assert(r@[i] == "Or");
            } else if i == 2 {
                assert(r@[i] == "Not");
            } else if i == 3 {
                assert(r@[i] == "Equal");
            } else if i == 4 {
                assert(r@[i] == "NotEqual");
            } else if i == 5 {
                assert(r@[i] == "Greater");
            } else if i == 6 {
                assert(r@[i] == "GreaterEqual");
            } else if i == 7 {
                assert(r@[i] == "Less");
            } else if i == 8 {
                assert(r@[i] == "LessEqual");
            } else if i == 9 {
                assert(r@[i] == "Formula");
            } else if i == 10 {
                assert(r@[i] == "Monoflop");
            } else if i == 11 {
                assert(r@[i] == "PulseGen");
            } else {
                assert(r@[i] == "AnalogThresholdTrigger");
            }
        }
        assert(r@.map_values(|s: &str| s@) =~= builtin_type_names());
    }
    r
}

/// Verified port tables for the block types the compiler may create.
/// Order = connector-index order.
pub fn builtin(block_type: &str) -> (r: Option<Vec<PortSpec>>)
    ensures
        match r {
            Some(v) => builtin_spec(block_type@) == Some(specs_view(v@)),
            None => builtin_spec(block_type@) is None,
        },
{
    let t = block_type;
    let r = if crate::text::str_eq(t, "And") || crate::text::str_eq(t, "Or") {
        Some(vec![ps("I1", PortDir::Input), ps("I2", PortDir::Input), ps("Q", PortDir::Output)])
    } else if crate::text::str_eq(t, "Not") {
        Some(vec![ps("I", PortDir::Input), ps("Q", PortDir::Output)])
    } else if crate::text::str_eq(t, "Equal") || crate::text::str_eq(t, "NotEqual")
        || crate::text::str_eq(t, "Greater") || crate::text::str_eq(t, "GreaterEqual")
        || crate::text::str_eq(t, "Less") || crate::text::str_eq(t, "LessEqual") {
        Some(
            vec![
                ps("Input1", PortDir::Input),
                ps("Input2", PortDir::Input),
                ps("Q", PortDir::Output),
            ],
        )
    } else if crate::text::str_eq(t, "Formula") {
        Some(
            vec![
                ps("Input1", PortDir::Input),
                ps("Input2", PortDir::Input),
                ps("Input3", PortDir::Input),
                ps("Input4", PortDir::Input),
                ps("AQ", PortDir::Output),
                ps("TQ", PortDir::Output),
            ],
        )
    } else if crate::text::str_eq(t, "Monoflop") {
        Some(
            vec![
                ps("InputTrigger", PortDir::Input),
                ps("Reset", PortDir::Input),
                ps("Remanence", PortDir::Input),
                ps("Time", PortDir::Param),
                ps("Q", PortDir::Output),
            ],
        )
    } else if crate::text::str_eq(t, "PulseGen") {
        Some(
            vec![
                ps("InputEnable", PortDir::Input),
                ps("InputInvert", PortDir::Input),
                ps("Remanence", PortDir::Input),
                ps("TimeHigh", PortDir::Param),
                ps("TimeLow", PortDir::Param),
                ps("Q", PortDir::Output),
            ],
        )
    } else if crate::text::str_eq(t, "AnalogThresholdTrigger") {
        Some(
            vec![
                ps("Input", PortDir::Input),
                ps("Remanence", PortDir::Input),
                ps("On", PortDir::Param),
                ps("Off", PortDir::Param),
                ps("PulseTime", PortDir::Param),
                ps("Q", PortDir::Output),
                ps("RisingEdge", PortDir::Output),
                ps("FallingEdge", PortDir::Output),
            ],
        )
    } else {
        None
    };
    proof {
        if r is Some {
            assert(specs_view(r->0@) =~= builtin_spec(block_type@)->0);
        }
    }
    r
}

/// Block logic a type stores as element attributes rather than connector
/// `Def=` values (a `Formula` block keeps its expression in `Formula=`).
pub open spec fn attr_params_spec(t: Seq<char>) -> Seq<Seq<char>> {
    if t == "Formula"@ {
        seq!["Formula"@]
    } else {
        seq![]
    }
}

/// The attribute parameters of a block type.
pub fn attr_params(block_type: &str) -> (r: Vec<&'static str>)
    ensures
        r@.map_values(|s: &str| s@) == attr_params_spec(block_type@),
{
    if crate::text::str_eq(block_type, "Formula") {
        let r = vec!["Formula"];
        assert(r@.map_values(|s: &str| s@) =~= attr_params_spec(block_type@));
        r
    } else {
        let r: Vec<&'static str> = Vec::new();
        assert(r@.map_values(|s: &str| s@) =~= attr_params_spec(block_type@));
        r
    }
}

/// Direction evidence for one port key of one block type, accumulated over
/// every occurrence in a document (or, after [`merge`], a whole corpus).
#[derive(Debug, Clone, Copy, PartialEq, Eq)]
pub struct ObservedPort {
    /// Connector index from the port UUID (when consistent across
    /// occurrences; `None` if never seen or conflicting).
    pub index: Option<u8>,
    /// Two occurrences carried different connector indexes.
    pub index_conflict: bool,
    /// Occurrences where this port had incoming `<In>` wires → input.
    pub wired_as_sink: u32,
    /// Occurrences where this port was referenced as a wire source → output.
    pub wired_as_source: u32,
    /// Occurrences carrying a `Def=` value → parameter-like.
    pub has_def: u32,
    pub occurrences: u32,
}

pub open spec fn default_port() -> ObservedPort {
    ObservedPort {
        index: None,
        index_conflict: false,
        wired_as_sink: 0,
        wired_as_source: 0,
        has_def: 0,
        occurrences: 0,
    }
}

impl Default for ObservedPort {
    fn default() -> (p: ObservedPort)
        ensures
            p == default_port(),
    {
        ObservedPort {
            index: None,
            index_conflict: false,
            wired_as_sink: 0,
            wired_as_source: 0,
            has_def: 0,
            occurrences: 0,
        }
    }
}

/// The direction the evidence points to: sinks against sources, and a
/// parameter when there are only defaults.
pub open spec fn inferred_dir_spec(p: ObservedPort) -> Option<PortDir> {
    if p.wired_as_sink == 0 && p.wired_as_source == 0 {
        if p.has_def > 0 {
            Some(PortDir::Param)
        } else {
            None
        }
    } else if p.wired_as_sink >= p.wired_as_source {
        Some(PortDir::Input)
    } else {
        Some(PortDir::Output)
    }
}

impl ObservedPort {
    /// Best direction guess from the evidence, if any.
    pub fn inferred_dir(&self) -> (r: Option<PortDir>)
        ensures
            r == inferred_dir_spec(*self),
    {
        if self.wired_as_sink == 0 && self.wired_as_source == 0 {
            if self.has_def > 0 {
                Some(PortDir::Param)
            } else {
                None
            }
        } else if self.wired_as_sink >= self.wired_as_source {
            Some(PortDir::Input)
        } else {
            Some(PortDir::Output)
        }
    }
}

/// Block type → port key → accumulated evidence.
pub type Observations = StrMap<StrMap<ObservedPort>>;

/// The evidence recorded for `ty`/`key`.
pub open spec fn obs_get(o: Seq<(Seq<char>, StrMap<ObservedPort>)>, ty: Seq<char>, key: Seq<char>) -> Option<
    ObservedPort,
> {
    match map_get(o, ty) {
        Some(m) => map_get(m@, key),
        None => None,
    }
}

pub open spec fn or_default(p: Option<ObservedPort>) -> ObservedPort {
    match p {
        Some(x) => x,
        None => default_port(),
    }
}

/// Combining two records of one port: counters add; the connector index
/// stays only while both agree, and a disagreement is remembered.
pub open spec fn merge_port(e: ObservedPort, o: ObservedPort) -> ObservedPort {
    let conflict = e.index_conflict || o.index_conflict || (e.index is Some && o.index is Some
        && e.index != o.index);
    ObservedPort {
        index: if conflict {
            None
        } else if e.index is Some {
            e.index
        } else {
            o.index
        },
        index_conflict: conflict,
        wired_as_sink: (e.wired_as_sink + o.wired_as_sink) as u32,
        wired_as_source: (e.wired_as_source + o.wired_as_source) as u32,
        has_def: (e.has_def + o.has_def) as u32,
        occurrences: (e.occurrences + o.occurrences) as u32,
    }
}

/// The counters of two records can be added without overflow.
pub open spec fn mergeable(e: ObservedPort, o: ObservedPort) -> bool {
    e.wired_as_sink + o.wired_as_sink <= u32::MAX && e.wired_as_source + o.wired_as_source
        <= u32::MAX && e.has_def + o.has_def <= u32::MAX && e.occurrences + o.occurrences
        <= u32::MAX
}

fn merge_port_exec(e: ObservedPort, o: ObservedPort) -> (r: ObservedPort)
    requires
        mergeable(e, o),
    ensures
        r == merge_port(e, o),
{
    let mut conflict = e.index_conflict || o.index_conflict;
    match (e.index, o.index) {
        (Some(a), Some(b)) => {
            if a != b {
                conflict = true;
            }
        },
        _ => {},
    }
    let index = if conflict {
        None
    } else if e.index.is_some() {
        e.index
    } else {
        o.index
    };
    ObservedPort {
        index,
        index_conflict: conflict,
        wired_as_sink: e.wired_as_sink + o.wired_as_sink,
        wired_as_source: e.wired_as_source + o.wired_as_source,
        has_def: e.has_def + o.has_def,
        occurrences: e.occurrences + o.occurrences,
    }
}

/// What `merge` leaves for `ty`/`key`.
pub open spec fn merged_get(
    into: Seq<(Seq<char>, StrMap<ObservedPort>)>,
    other: Seq<(Seq<char>, StrMap<ObservedPort>)>,
    ty: Seq<char>,
    key: Seq<char>,
) -> Option<ObservedPort> {
    match obs_get(other, ty, key) {
        Some(o) => Some(merge_port(or_default(obs_get(into, ty, key)), o)),
        None => obs_get(into, ty, key),
    }
}

/// Merge evidence from another document (or corpus) into `into`.
///
/// Counters add; connector indexes stay only while every occurrence agrees
/// (a disagreement poisons the index permanently via `index_conflict`).
pub fn merge(into: &mut Observations, other: Observations)
    requires
        forall|ty: Seq<char>, key: Seq<char>|
            #[trigger] obs_get(other@, ty, key) is Some ==> mergeable(
                or_default(obs_get(old(into)@, ty, key)),
                obs_get(other@, ty, key)->0,
            ),
    ensures
        forall|ty: Seq<char>, key: Seq<char>|
            #[trigger] obs_get(final(into)@, ty, key) == merged_get(
                old(into)@,
                other@,
                ty,
                key,
            ),
        forall|ty: Seq<char>|
            #[trigger] map_get(final(into)@, ty) is Some <==> (map_get(old(into)@, ty) is Some
                || map_get(other@, ty) is Some),
{
    let ghost i0 = into@;
    let ghost ov = other@;
    other.sorted();
    let mut i: usize = 0;
    while i < other.len()
        invariant
            0 <= i <= ov.len(),
            ov == other@,
            crate::strmap::sorted_keys(ov),
            forall|ty: Seq<char>, key: Seq<char>|
                #[trigger] obs_get(ov, ty, key) is Some ==> mergeable(
                    or_default(obs_get(i0, ty, key)),
                    obs_get(ov, ty, key)->0,
                ),
            forall|ty: Seq<char>, key: Seq<char>|
                #[trigger] obs_get(into@, ty, key) == merged_get(i0, ov.take(i as int), ty, key),
            forall|ty: Seq<char>|
                #[trigger] map_get(into@, ty) is Some <==> (map_get(i0, ty) is Some || map_get(
                    ov.take(i as int),
                    ty,
                ) is Some),
        decreases ov.len() - i,
    {
        let ty = other.key_at(i);
        let src = other.value_at(i);
        let ghost tyv = ty@;
        let ghost pre = ov.take(i as int);
        let ghost post = ov.take(i + 1);
        proof {
            assert(post.drop_last() =~= pre);
            assert(post.last() == ov[i as int]);
            crate::strmap::lemma_key_index(pre, tyv);
            crate::strmap::lemma_key_index_unique(ov, tyv, i as int);
            if crate::strmap::key_index(pre, tyv) >= 0 {
                let j = crate::strmap::key_index(pre, tyv);
                assert(ov[j].0 == tyv);
                crate::strmap::lemma_key_index_unique(ov, tyv, j);
            }
            assert(map_get(pre, tyv) is None);
        }
        let ghost ic = into@;
        let mut target: StrMap<ObservedPort> = match into.find(ty.as_str()) {
            Some(j) => {
                proof {
                    crate::strmap::lemma_key_index(ic, tyv);
                }
                into.replace_at(j, StrMap::new())
            },
            None => StrMap::new(),
        };
        let ghost ir = into@;
        let ghost t0 = target@;
        proof {
            assert forall|key: Seq<char>| map_get(t0, key) == obs_get(i0, tyv, key) by {
                assert(obs_get(ic, tyv, key) == merged_get(i0, pre, tyv, key));
                crate::strmap::lemma_key_index(ic, tyv);
                if map_get(ic, tyv) is None {
                    assert(t0 =~= Seq::<(Seq<char>, ObservedPort)>::empty());
                    crate::strmap::lemma_key_index(t0, key);
                }
            }
            assert(src@ == ov[i as int].1@);
            assert(map_get(ov, tyv) == Some(ov[i as int].1));
            assert forall|key: Seq<char>| #[trigger]
                map_get(src@, key) is Some implies mergeable(
                or_default(map_get(t0, key)),
                map_get(src@, key)->0,
            ) by {
                assert(obs_get(ov, tyv, key) == map_get(src@, key));
            }
            assert forall|ty2: Seq<char>, key: Seq<char>| ty2 != tyv implies #[trigger] obs_get(
                ir,
                ty2,
                key,
            ) == obs_get(ic, ty2, key) by {}
        }
        src.sorted();
        let ghost sv = src@;
        let mut k: usize = 0;
        assert(sv.take(0) =~= Seq::<(Seq<char>, ObservedPort)>::empty());
        while k < src.len()
            invariant
                0 <= k <= sv.len(),
                sv == src@,
                crate::strmap::sorted_keys(sv),
                forall|key: Seq<char>|
                    #[trigger] map_get(sv, key) is Some ==> mergeable(
                        or_default(map_get(t0, key)),
                        map_get(sv, key)->0,
                    ),
                forall|key: Seq<char>|
                    #[trigger] map_get(target@, key) == match map_get(sv.take(k as int), key) {
                        Some(o) => Some(merge_port(or_default(map_get(t0, key)), o)),
                        None => map_get(t0, key),
                    },
            decreases sv.len() - k,
        {
            let key = src.key_at(k);
            let o = *src.value_at(k);
            let ghost kv = key@;
            let ghost kpre = sv.take(k as int);
            let ghost kpost = sv.take(k + 1);
            let ghost tb = target@;
            proof {
                assert(kpost.drop_last() =~= kpre);
                assert(kpost.last() == sv[k as int]);
                crate::strmap::lemma_key_index(kpre, kv);
                crate::strmap::lemma_key_index_unique(sv, kv, k as int);
                if crate::strmap::key_index(kpre, kv) >= 0 {
                    let j = crate::strmap::key_index(kpre, kv);
                    assert(kpre[j] == sv[j]);
                    assert(sv[j].0 == kv);
                    crate::strmap::lemma_key_index_unique(sv, kv, j);
                }
                assert(map_get(kpre, kv) is None);
                assert(map_get(sv, kv) == Some(o));
                assert(map_get(tb, kv) == map_get(t0, kv));
            }
            let e = match target.get(key.as_str()) {
                Some(p) => *p,
                None => ObservedPort::default(),
            };
            let m = merge_port_exec(e, o);
            target.insert(string_of(key.as_str()), m);
            proof {
                assert forall|key2: Seq<char>| #[trigger] map_get(target@, key2) == match map_get(
                    kpost,
                    key2,
                ) {
                    Some(o2) => Some(merge_port(or_default(map_get(t0, key2)), o2)),
                    None => map_get(t0, key2),
                } by {
                    assert(kpost =~= kpre.push(sv[k as int]));
                    crate::strmap::lemma_map_get_push(kpre, sv[k as int], key2);
                }
            }
            k = k + 1;
        }
        proof {
            assert(sv.take(sv.len() as int) =~= sv);
        }
        let ghost tf = target@;
        into.insert(string_of(ty.as_str()), target);
        proof {
            assert forall|ty2: Seq<char>, key: Seq<char>| #[trigger] obs_get(into@, ty2, key)
                == merged_get(i0, post, ty2, key) by {
                assert(post =~= pre.push(ov[i as int]));
                crate::strmap::lemma_map_get_push(pre, ov[i as int], ty2);
                if ty2 == tyv {
                    assert(map_get(post, tyv) == Some(ov[i as int].1));
                    assert(obs_get(post, tyv, key) == map_get(sv, key));
                    assert(map_get(t0, key) == obs_get(i0, tyv, key));
                } else {
                    assert(map_get(post, ty2) == map_get(pre, ty2));
                    assert(obs_get(ic, ty2, key) == merged_get(i0, pre, ty2, key));
                }
            }
            assert forall|ty2: Seq<char>| #[trigger] map_get(into@, ty2) is Some <==> (map_get(
                i0,
                ty2,
            ) is Some || map_get(post, ty2) is Some) by {
                assert(post =~= pre.push(ov[i as int]));
                crate::strmap::lemma_map_get_push(pre, ov[i as int], ty2);
            }
        }
        i = i + 1;
    }
    proof {
        assert(ov.take(ov.len() as int) =~= ov);
    }
}

/// Merging never clears a recorded index conflict, and a conflicted
/// record never carries an index.
pub proof fn conflicts_are_permanent(e: ObservedPort, o: ObservedPort)
    ensures
        e.index_conflict ==> merge_port(e, o).index_conflict,
        merge_port(e, o).index_conflict ==> merge_port(e, o).index is None,
        (e.index is Some && o.index is Some && e.index != o.index) ==> merge_port(
            e,
            o,
        ).index_conflict,
{
}

/// Every port occurrence of the document, with its block type.
pub open spec fn occurrences_of(objs: Seq<(SObject, SElement)>) -> Seq<(Seq<char>, SPort)>
    decreases objs.len(),
{
    if objs.len() == 0 {
        seq![]
    } else {
        occurrences_of(objs.drop_last()) + ports_spec(objs.last().1).map_values(
            |p: SPort| (objs.last().0.block_type, p),
        )
    }
}

/// The connector index a port UUID carries, if it parses as a port UUID.
pub open spec fn port_index(u: Seq<char>) -> Option<u8> {
    match uuid_parse(u) {
        UuidParse::Parsed { tail, .. } => if tail[1] == 0xff && tail[0] != 0xff {
            Some(tail[0])
        } else {
            None
        },
        _ => None,
    }
}

/// One occurrence's evidence added to a record.
pub open spec fn observe_step(o: ObservedPort, p: SPort) -> ObservedPort {
    let o1 = ObservedPort {
        occurrences: (o.occurrences + 1) as u32,
        wired_as_sink: if p.inputs.len() > 0 {
            (o.wired_as_sink + 1) as u32
        } else {
            o.wired_as_sink
        },
        has_def: if p.def is Some {
            (o.has_def + 1) as u32
        } else {
            o.has_def
        },
        ..o
    };
    match port_index(p.uuid) {
        Some(idx) => match o1.index {
            None => if !o1.index_conflict {
                ObservedPort { index: Some(idx), ..o1 }
            } else {
                o1
            },
            Some(prev) => if prev != idx {
                ObservedPort { index: None, index_conflict: true, ..o1 }
            } else {
                o1
            },
        },
        None => o1,
    }
}

/// The evidence the occurrences give for `ty`/`key` (before wire sources).
pub open spec fn agg(occs: Seq<(Seq<char>, SPort)>, ty: Seq<char>, key: Seq<char>) -> Option<
    ObservedPort,
>
    decreases occs.len(),
{
    if occs.len() == 0 {
        None
    } else {
        let prev = agg(occs.drop_last(), ty, key);
        if occs.last().0 == ty && occs.last().1.key == key {
            Some(observe_step(or_default(prev), occs.last().1))
        } else {
            prev
        }
    }
}

/// Whether some occurrence has block type `ty`.
pub open spec fn has_type(occs: Seq<(Seq<char>, SPort)>, ty: Seq<char>) -> bool {
    exists|i: int| 0 <= i < occs.len() && #[trigger] occs[i].0 == ty
}

/// `port uuid → (block type, key)` assignments.
pub open spec fn type_owners(occs: Seq<(Seq<char>, SPort)>) -> Seq<
    (Seq<char>, (Seq<char>, Seq<char>)),
> {
    occs.map_values(|o: (Seq<char>, SPort)| (o.1.uuid, (o.0, o.1.key)))
}

/// How many wires start at a port owned by `ty`/`key`.
pub open spec fn source_count(
    wires: Seq<(Seq<char>, Seq<char>)>,
    owners: Seq<(Seq<char>, (Seq<char>, Seq<char>))>,
    ty: Seq<char>,
    key: Seq<char>,
) -> nat
    decreases wires.len(),
{
    if wires.len() == 0 {
        0
    } else {
        source_count(wires.drop_last(), owners, ty, key) + if last_assigned(
            owners,
            wires.last().0,
        ) == Some((ty, key)) {
            1nat
        } else {
            0nat
        }
    }
}

/// What `observe` records for `ty`/`key`.
pub open spec fn observed(objs: Seq<(SObject, SElement)>, ty: Seq<char>, key: Seq<char>) -> Option<
    ObservedPort,
> {
    let occs = occurrences_of(objs);
    match agg(occs, ty, key) {
        Some(a) => Some(
            ObservedPort {
                wired_as_source: (a.wired_as_source + source_count(
                    objects_wires(objs),
                    type_owners(occs),
                    ty,
                    key,
                )) as u32,
                ..a
            },
        ),
        None => None,
    }
}

proof fn lemma_agg_bounds(occs: Seq<(Seq<char>, SPort)>, ty: Seq<char>, key: Seq<char>)
    requires
        occs.len() <= u32::MAX,
    ensures
        agg(occs, ty, key) matches Some(a) ==> a.occurrences <= occs.len() && a.wired_as_sink
            <= a.occurrences && a.has_def <= a.occurrences && a.wired_as_source == 0,
    decreases occs.len(),
{
    if occs.len() > 0 {
        lemma_agg_bounds(occs.drop_last(), ty, key);
    }
}

proof fn lemma_source_count_bound(
    wires: Seq<(Seq<char>, Seq<char>)>,
    owners: Seq<(Seq<char>, (Seq<char>, Seq<char>))>,
    ty: Seq<char>,
    key: Seq<char>,
)
    ensures
        source_count(wires, owners, ty, key) <= wires.len(),
    decreases wires.len(),
{
    if wires.len() > 0 {
        lemma_source_count_bound(wires.drop_last(), owners, ty, key);
    }
}

/// The record for `ty`/`key`, or the empty record.
fn get_obs(obs: &Observations, ty: &str, key: &str) -> (r: Option<ObservedPort>)
    ensures
        r == obs_get(obs@, ty@, key@),
{
    match obs.get(ty) {
        Some(m) => match m.get(key) {
            Some(p) => Some(*p),
            None => None,
        },
        None => None,
    }
}

/// Store the record for `ty`/`key`.
fn put_obs(obs: &mut Observations, ty: &str, key: &str, v: ObservedPort)
    ensures
        forall|t: Seq<char>, k: Seq<char>|
            #[trigger] obs_get(final(obs)@, t, k) == if t == ty@ && k == key@ {
                Some(v)
            } else {
                obs_get(old(obs)@, t, k)
            },
        forall|t: Seq<char>|
            #[trigger] map_get(final(obs)@, t) is Some <==> (map_get(old(obs)@, t) is Some || t
                == ty@),
{
    let ghost o = obs@;
    let mut inner: StrMap<ObservedPort> = match obs.find(ty) {
        Some(j) => {
            proof {
                crate::strmap::lemma_key_index(o, ty@);
            }
            obs.replace_at(j, StrMap::new())
        },
        None => StrMap::new(),
    };
    let ghost i0 = inner@;
    proof {
        assert forall|k: Seq<char>| map_get(i0, k) == obs_get(o, ty@, k) by {
            crate::strmap::lemma_key_index(o, ty@);
            if map_get(o, ty@) is None {
                assert(i0 =~= Seq::<(Seq<char>, ObservedPort)>::empty());
                crate::strmap::lemma_key_index(i0, k);
            }
        }
    }
    inner.insert(string_of(key), v);
    obs.insert(string_of(ty), inner);
}

/// Scan a document and accumulate port-direction evidence.
pub fn observe(doc: &LoxoneDoc) -> (r: Observations)
    requires
        ({
            let occs = occurrences_of(objects_in(doc@.root, seq![]));
            &&& occs.len() <= u32::MAX
            &&& objects_wires(objects_in(doc@.root, seq![])).len() <= u32::MAX
            &&& forall|i: int|
                0 <= i < occs.len() ==> !(uuid_parse(#[trigger] occs[i].1.uuid) is Panics)
        }),
    ensures
        ({
            let objs = objects_in(doc@.root, seq![]);
            &&& forall|ty: Seq<char>, key: Seq<char>|
                #[trigger] obs_get(r@, ty, key) == observed(objs, ty, key)
            &&& forall|ty: Seq<char>|
                #[trigger] map_get(r@, ty) is Some <==> has_type(occurrences_of(objs), ty)
        }),
{
    let (objs, els) = doc.object_entries();
    let ghost ov = objects_view(objs@, els@);
    let ghost occs = occurrences_of(ov);
    let mut obs: Observations = StrMap::new();
    let mut owner: StrMap<(String, String)> = StrMap::new();
    let mut i: usize = 0;
    proof {
        assert(ov.take(0) =~= Seq::<(SObject, SElement)>::empty());
    }
    while i < objs.len()
        invariant
            0 <= i <= objs@.len(),
            objs@.len() == els@.len(),
            ov == objects_view(objs@, els@),
            occs == occurrences_of(ov),
            occs.len() <= u32::MAX,
            forall|q: int| 0 <= q < occs.len() ==> !(uuid_parse(#[trigger] occs[q].1.uuid) is Panics),
            forall|ty: Seq<char>, key: Seq<char>|
                #[trigger] obs_get(obs@, ty, key) == agg(occurrences_of(ov.take(i as int)), ty, key),
            forall|ty: Seq<char>|
                #[trigger] map_get(obs@, ty) is Some <==> has_type(
                    occurrences_of(ov.take(i as int)),
                    ty,
                ),
            forall|k: Seq<char>|
                match #[trigger] map_get(owner@, k) {
                    Some(v) => last_assigned(type_owners(occurrences_of(ov.take(i as int))), k)
                        == Some((v.0@, v.1@)),
                    None => last_assigned(type_owners(occurrences_of(ov.take(i as int))), k) is None,
                },
        decreases objs@.len() - i,
    {
        let obj = &objs[i];
        let ps = ports(els[i]);
        let ghost pv = ps@.map_values(|p: PortView| p@);
        let ghost base = occurrences_of(ov.take(i as int));
        let ghost ty = obj@.block_type;
        proof {
            assert(ov[i as int] == (obj@, els@[i as int]@));
            assert(ov.take(i + 1).drop_last() =~= ov.take(i as int));
            assert(occurrences_of(ov.take(i + 1)) == base + pv.map_values(|p: SPort| (ty, p)));
            lemma_occurrences_prefix(ov, i + 1);
        }
        let mut j: usize = 0;
        while j < ps.len()
            invariant
                0 <= j <= ps@.len(),
                pv == ps@.map_values(|p: PortView| p@),
                ty == obj@.block_type,
                base + pv.map_values(|p: SPort| (ty, p)) == occs.take((base.len() + pv.len()) as int),
                base.len() + pv.len() <= occs.len(),
                occs.len() <= u32::MAX,
                forall|q: int| 0 <= q < occs.len() ==> !(uuid_parse(#[trigger] occs[q].1.uuid) is Panics),
                forall|t: Seq<char>, key: Seq<char>|
                    #[trigger] obs_get(obs@, t, key) == agg(
                        base + pv.take(j as int).map_values(|p: SPort| (ty, p)),
                        t,
                        key,
                    ),
                forall|t: Seq<char>|
                    #[trigger] map_get(obs@, t) is Some <==> has_type(
                        base + pv.take(j as int).map_values(|p: SPort| (ty, p)),
                        t,
                    ),
                forall|k: Seq<char>|
                    match #[trigger] map_get(owner@, k) {
                        Some(v) => last_assigned(
                            type_owners(base + pv.take(j as int).map_values(|p: SPort| (ty, p))),
                            k,
                        ) == Some((v.0@, v.1@)),
                        None => last_assigned(
                            type_owners(base + pv.take(j as int).map_values(|p: SPort| (ty, p))),
                            k,
                        ) is None,
                    },
            decreases ps@.len() - j,
        {
            let port = &ps[j];
            let ghost prev = base + pv.take(j as int).map_values(|p: SPort| (ty, p));
            let ghost next = base + pv.take(j + 1).map_values(|p: SPort| (ty, p));
            proof {
                assert(pv[j as int] == port@);
                assert(next =~= prev.push((ty, port@)));
                assert(next.drop_last() =~= prev);
                assert(prev.len() < occs.len());
                assert(occs[prev.len() as int] == (ty, port@)) by {
                    assert(occs.take((base.len() + pv.len()) as int)[prev.len() as int] == (ty, port@));
                }
                lemma_agg_bounds(prev, ty, port@.key);
            }
            let cur = match get_obs(&obs, obj.block_type.as_str(), port.key.as_str()) {
                Some(p) => p,
                None => ObservedPort::default(),
            };
            let mut e = cur;
            e.occurrences = e.occurrences + 1;
            if port.inputs.len() > 0 {
                e.wired_as_sink = e.wired_as_sink + 1;
            }
            if port.def.is_some() {
                e.has_def = e.has_def + 1;
            }
            if !uuid_parse_panics(port.uuid.as_str()) {
                match LoxUuid::parse(port.uuid.as_str()) {
                    Ok(u) => match u.connector_index() {
                        Some(idx) => match e.index {
                            None => {
                                if !e.index_conflict {
                                    e.index = Some(idx);
                                }
                            },
                            Some(p) => {
                                if p != idx {
                                    e.index = None;
                                    e.index_conflict = true;
                                }
                            },
                        },
                        None => {},
                    },
                    Err(_) => {},
                }
            }
            proof {
                assert(e == observe_step(cur, port@));
            }
            put_obs(&mut obs, obj.block_type.as_str(), port.key.as_str(), e);
            owner.insert(
                string_of(port.uuid.as_str()),
                (string_of(obj.block_type.as_str()), string_of(port.key.as_str())),
            );
            proof {
                assert forall|t: Seq<char>| #[trigger] map_get(obs@, t) is Some <==> has_type(next, t) by {
                    if has_type(prev, t) {
                        let q = choose|q: int| 0 <= q < prev.len() && #[trigger] prev[q].0 == t;
                        assert(next[q] == prev[q]);
                    }
                    if t == ty {
                        assert(next[prev.len() as int].0 == t);
                    }
                    if has_type(next, t) && t != ty {
                        let q = choose|q: int| 0 <= q < next.len() && #[trigger] next[q].0 == t;
                        assert(q < prev.len());
                        assert(prev[q] == next[q]);
                    }
                }
                let to_next = type_owners(next);
                assert(to_next.drop_last() =~= type_owners(prev));
                assert(to_next.last() == (port@.uuid, (ty, port@.key)));
            }
            j = j + 1;
        }
        proof {
            assert(pv.take(pv.len() as int) =~= pv);
        }
        i = i + 1;
    }
    proof {
        assert(ov.take(ov.len() as int) =~= ov);
    }
    let ghost obs1 = obs@;
    let ghost owners = type_owners(occs);
    let wires = doc.wires();
    let ghost wv = wires@.map_values(|w: WireView| w@);
    let mut k: usize = 0;
    proof {
        assert(wv.take(0) =~= Seq::<(Seq<char>, Seq<char>)>::empty());
    }
    while k < wires.len()
        invariant
            0 <= k <= wires@.len(),
            wv == wires@.map_values(|w: WireView| w@),
            wv == objects_wires(ov),
            wv.len() <= u32::MAX,
            owners == type_owners(occs),
            forall|q: Seq<char>|
                match #[trigger] map_get(owner@, q) {
                    Some(v) => last_assigned(owners, q) == Some((v.0@, v.1@)),
                    None => last_assigned(owners, q) is None,
                },
            forall|ty: Seq<char>, key: Seq<char>|
                #[trigger] obs_get(obs1, ty, key) == agg(occs, ty, key),
            occs.len() <= u32::MAX,
            forall|ty: Seq<char>, key: Seq<char>|
                #[trigger] obs_get(obs@, ty, key) == match agg(occs, ty, key) {
                    Some(a) => Some(
                        ObservedPort {
                            wired_as_source: (a.wired_as_source + source_count(
                                wv.take(k as int),
                                owners,
                                ty,
                                key,
                            )) as u32,
                            ..a
                        },
                    ),
                    None => None,
                },
            forall|ty: Seq<char>| #[trigger] map_get(obs@, ty) is Some <==> map_get(obs1, ty) is Some,
        decreases wires@.len() - k,
    {
        let w = &wires[k];
        let ghost wpre = wv.take(k as int);
        let ghost wpost = wv.take(k + 1);
        proof {
            assert(wpost.drop_last() =~= wpre);
            assert(wpost.last() == w@);
        }
        match owner.get(w.from_port.as_str()) {
            Some(tk) => {
                let ghost tyv = tk.0@;
                let ghost keyv = tk.1@;
                match get_obs(&obs, tk.0.as_str(), tk.1.as_str()) {
                    Some(p) => {
                        proof {
                            lemma_agg_bounds(occs, tyv, keyv);
                            lemma_source_count_bound(wpre, owners, tyv, keyv);
                        }
                        let mut e = p;
                        e.wired_as_source = e.wired_as_source + 1;
                        put_obs(&mut obs, tk.0.as_str(), tk.1.as_str(), e);
                    },
                    None => {},
                }
            },
            None => {},
        }
        k = k + 1;
    }
    proof {
        assert(wv.take(wv.len() as int) =~= wv);
    }
    obs
}

proof fn lemma_occurrences_prefix(objs: Seq<(SObject, SElement)>, n: int)
    requires
        0 <= n <= objs.len(),
    ensures
        occurrences_of(objs.take(n)) == occurrences_of(objs).take(
            occurrences_of(objs.take(n)).len() as int,
        ),
        occurrences_of(objs.take(n)).len() <= occurrences_of(objs).len(),
    decreases objs.len() - n,
{
    if n < objs.len() {
        lemma_occurrences_prefix(objs, n + 1);
        let a = occurrences_of(objs.take(n));
        let b = occurrences_of(objs.take(n + 1));
        assert(objs.take(n + 1).drop_last() =~= objs.take(n));
        assert(b.take(a.len() as int) =~= a);
        assert(occurrences_of(objs).take(a.len() as int) =~= occurrences_of(objs).take(
            b.len() as int,
        ).take(a.len() as int));
    } else {
        assert(objs.take(n) =~= objs);
        assert(occurrences_of(objs).take(occurrences_of(objs).len() as int) =~= occurrences_of(
            objs,
        ));
    }
}

// ---------------------------------------------------------------------------
// Cross-checking against a legacy connector database
// ---------------------------------------------------------------------------

/// One entry of a legacy connector database: `c` = canonical connector
/// order, `t` = port key → `"I"` / `"O"` (or `"P"` for a parameter).
#[derive(Debug, Clone)]
pub struct LegacyType {
    pub c: Vec<String>,
    pub t: StrMap<String>,
}

/// Block type → legacy entry.
pub type LegacyDb = StrMap<LegacyType>;

/// Comparison of corpus evidence against one legacy entry, for one type.
#[derive(Debug, Clone)]
pub struct TypeCheck {
    /// Ports whose inferred direction matches the legacy direction.
    pub dir_agreements: u32,
    /// `"key: corpus=Input legacy=O"` — evidence contradicts the legacy db.
    pub dir_conflicts: Vec<String>,
    /// Keys seen in real configs but absent from the legacy db.
    pub only_in_corpus: Vec<String>,
    /// Keys the legacy db lists but no config ever materialized.
    pub only_in_legacy: Vec<String>,
    /// Set when the legacy `c` order disagrees with the observed
    /// connector-index order.
    pub order_mismatch: Option<String>,
}

pub struct SCheck {
    pub dir_agreements: nat,
    pub dir_conflicts: Seq<Seq<char>>,
    pub only_in_corpus: Seq<Seq<char>>,
    pub only_in_legacy: Seq<Seq<char>>,
    pub order_mismatch: Option<Seq<char>>,
}

pub open spec fn strings_view(v: Seq<String>) -> Seq<Seq<char>> {
    v.map_values(|s: String| s@)
}

impl View for TypeCheck {
    type V = SCheck;

    open spec fn view(&self) -> SCheck {
        SCheck {
            dir_agreements: self.dir_agreements as nat,
            dir_conflicts: strings_view(self.dir_conflicts@),
            only_in_corpus: strings_view(self.only_in_corpus@),
            only_in_legacy: strings_view(self.only_in_legacy@),
            order_mismatch: match self.order_mismatch {
                Some(m) => Some(m@),
                None => None,
            },
        }
    }
}

/// `{:?}` of a direction.
pub open spec fn dir_name(d: PortDir) -> Seq<char> {
    match d {
        PortDir::Input => "Input"@,
        PortDir::Output => "Output"@,
        PortDir::Param => "Param"@,
    }
}

/// A direction on the input/output axis: params are input-like.
pub open spec fn dir_axis(d: PortDir) -> Seq<char> {
    match d {
        PortDir::Output => "O"@,
        _ => "I"@,
    }
}

pub open spec fn legacy_axis(l: Seq<char>) -> Seq<char> {
    if l == "P"@ {
        "I"@
    } else {
        l
    }
}

/// The direction comparison over the observed ports (in key order):
/// agreements, conflicts, and keys the legacy entry lacks.
pub open spec fn compare_dirs(
    ports: Seq<(Seq<char>, ObservedPort)>,
    lt: Seq<(Seq<char>, String)>,
) -> (nat, Seq<Seq<char>>, Seq<Seq<char>>)
    decreases ports.len(),
{
    if ports.len() == 0 {
        (0, seq![], seq![])
    } else {
        let (a, c, o) = compare_dirs(ports.drop_last(), lt);
        let (key, p) = ports.last();
        match map_get(lt, key) {
            None => (a, c, o.push(key)),
            Some(l) => match inferred_dir_spec(p) {
                None => (a, c, o),
                Some(d) => if dir_axis(d) == legacy_axis(l@) {
                    (a + 1, c, o)
                } else {
                    (a, c.push(key + ": corpus="@ + dir_name(d) + " legacy="@ + legacy_axis(l@)), o)
                },
            },
        }
    }
}

/// Legacy keys no observation has, in key order.
pub open spec fn legacy_only(
    lt: Seq<(Seq<char>, String)>,
    ports: Seq<(Seq<char>, ObservedPort)>,
) -> Seq<Seq<char>>
    decreases lt.len(),
{
    if lt.len() == 0 {
        seq![]
    } else if map_get(ports, lt.last().0) is Some {
        legacy_only(lt.drop_last(), ports)
    } else {
        legacy_only(lt.drop_last(), ports).push(lt.last().0)
    }
}

/// Observed keys whose connector index is `idx`, in key order.
pub open spec fn keys_at_index(ports: Seq<(Seq<char>, ObservedPort)>, idx: u8) -> Seq<Seq<char>>
    decreases ports.len(),
{
    if ports.len() == 0 {
        seq![]
    } else if ports.last().1.index == Some(idx) {
        keys_at_index(ports.drop_last(), idx).push(ports.last().0)
    } else {
        keys_at_index(ports.drop_last(), idx)
    }
}

/// Keys with a connector index below `n`, ordered by index (ties in key
/// order — what a stable sort by index gives).
pub open spec fn keys_by_index(ports: Seq<(Seq<char>, ObservedPort)>, n: nat) -> Seq<Seq<char>>
    decreases n,
{
    if n == 0 {
        seq![]
    } else {
        keys_by_index(ports, (n - 1) as nat) + keys_at_index(ports, (n - 1) as u8)
    }
}

/// The elements of `s` that `keep` holds, in order.
pub open spec fn keep_in(s: Seq<Seq<char>>, keep: Seq<Seq<char>>) -> Seq<Seq<char>>
    decreases s.len(),
{
    if s.len() == 0 {
        seq![]
    } else if keep.contains(s.last()) {
        keep_in(s.drop_last(), keep).push(s.last())
    } else {
        keep_in(s.drop_last(), keep)
    }
}

/// `{:?}` of a list of strings: `["a", "b"]`.
pub open spec fn debug_list(s: Seq<Seq<char>>) -> Seq<char> {
    "["@ + debug_items(s) + "]"@
}

pub open spec fn debug_items(s: Seq<Seq<char>>) -> Seq<char>
    decreases s.len(),
{
    if s.len() == 0 {
        seq![]
    } else if s.len() == 1 {
        debug_quoted(s[0])
    } else {
        debug_items(s.drop_last()) + ", "@ + debug_quoted(s.last())
    }
}

/// The check of one type present on both sides.
pub open spec fn type_check(ports: Seq<(Seq<char>, ObservedPort)>, l: LegacyType) -> SCheck {
    let lt = l.t@;
    let (a, c, o) = compare_dirs(ports, lt);
    let observed_order = keep_in(keys_by_index(ports, 256), strings_view(l.c@));
    let legacy_order = keep_in(strings_view(l.c@), map_keys(ports));
    SCheck {
        dir_agreements: a,
        dir_conflicts: c,
        only_in_corpus: o,
        only_in_legacy: legacy_only(lt, ports),
        order_mismatch: if observed_order == legacy_order {
            None
        } else {
            Some("observed "@ + debug_list(observed_order) + " vs legacy "@ + debug_list(legacy_order))
        },
    }
}

fn push_dir_name(out: &mut String, d: PortDir)
    ensures
        final(out)@ == old(out)@ + dir_name(d),
{
    match d {
        PortDir::Input => push_str(out, "Input"),
        PortDir::Output => push_str(out, "Output"),
        PortDir::Param => push_str(out, "Param"),
    }
}

fn contains_string(v: &Vec<String>, k: &str) -> (r: bool)
    ensures
        r == strings_view(v@).contains(k@),
{
    let mut i: usize = 0;
    while i < v.len()
        invariant
            0 <= i <= v@.len(),
            forall|j: int| 0 <= j < i ==> v@[j]@ != k@,
        decreases v@.len() - i,
    {
        if str_eq(v[i].as_str(), k) {
            assert(strings_view(v@)[i as int] == k@);
            return true;
        }
        i = i + 1;
    }
    proof {
        if strings_view(v@).contains(k@) {
            let j = choose|j: int| 0 <= j < strings_view(v@).len() && strings_view(v@)[j] == k@;
            assert(v@[j]@ == k@);
        }
    }
    false
}

fn push_debug_list(out: &mut String, s: &Vec<String>)
    ensures
        final(out)@ == old(out)@ + debug_list(strings_view(s@)),
{
    let ghost o = out@;
    let ghost sv = strings_view(s@);
    push_str(out, "[");
    let mut i: usize = 0;
    while i < s.len()
        invariant
            0 <= i <= s@.len(),
            sv == strings_view(s@),
            out@ == o + "["@ + debug_items(sv.take(i as int)),
        decreases s@.len() - i,
    {
        proof {
            assert(sv.take(i + 1).drop_last() =~= sv.take(i as int));
            assert(sv.take(i + 1).last() == s@[i as int]@);
        }
        if i > 0 {
            push_str(out, ", ");
        }
        push_debug_quoted(out, s[i].as_str());
        proof {
            if i == 0 {
                assert(sv.take(1) =~= seq![s@[0]@]);
                assert(debug_items(sv.take(0)) =~= Seq::<char>::empty());
            }
        }
        i = i + 1;
    }
    push_str(out, "]");
    proof {
        assert(sv.take(sv.len() as int) =~= sv);
        assert(out@ =~= o + debug_list(sv));
    }
}

fn check_type(ports: &StrMap<ObservedPort>, l: &LegacyType) -> (r: TypeCheck)
    requires
        ports@.len() <= u32::MAX,
    ensures
        r@ == type_check(ports@, *l),
{
    let ghost pv = ports@;
    let ghost lt = l.t@;
    let mut agreements: u32 = 0;
    let mut conflicts: Vec<String> = Vec::new();
    let mut corpus_only: Vec<String> = Vec::new();
    let mut i: usize = 0;
    while i < ports.len()
        invariant
            0 <= i <= pv.len(),
            pv == ports@,
            lt == l.t@,
            pv.len() <= u32::MAX,
            agreements <= i,
            compare_dirs(pv.take(i as int), lt) == (
                agreements as nat,
                strings_view(conflicts@),
                strings_view(corpus_only@),
            ),
        decreases pv.len() - i,
    {
        let key = ports.key_at(i);
        let o = *ports.value_at(i);
        proof {
            assert(pv.take(i + 1).drop_last() =~= pv.take(i as int));
            assert(pv.take(i + 1).last() == (key@, o));
        }
        let ghost c0 = conflicts@;
        let ghost q0 = corpus_only@;
        match l.t.get(key.as_str()) {
            None => {
                corpus_only.push(string_of(key.as_str()));
                assert(strings_view(corpus_only@) =~= strings_view(q0).push(key@));
            },
            Some(ld) => match o.inferred_dir() {
                None => {},
                Some(d) => {
                    let ours = match d {
                        PortDir::Output => "O",
                        _ => "I",
                    };
                    let theirs = if str_eq(ld.as_str(), "P") {
                        "I"
                    } else {
                        ld.as_str()
                    };
                    proof {
                        reveal_strlit("O");
                        reveal_strlit("I");
                        reveal_strlit("P");
                        assert(ours@ == dir_axis(d));
                        assert(theirs@ == legacy_axis(ld@));
                    }
                    if str_eq(ours, theirs) {
                        agreements = agreements + 1;
                    } else {
                        let mut m = string_of(key.as_str());
                        push_str(&mut m, ": corpus=");
                        push_dir_name(&mut m, d);
                        push_str(&mut m, " legacy=");
                        push_str(&mut m, theirs);
                        conflicts.push(m);
                        assert(strings_view(conflicts@) =~= strings_view(c0).push(
                            key@ + ": corpus="@ + dir_name(d) + " legacy="@ + legacy_axis(ld@),
                        ));
                    }
                },
            },
        }
        i = i + 1;
    }
    proof {
        assert(pv.take(pv.len() as int) =~= pv);
    }
    let mut legacy_keys: Vec<String> = Vec::new();
    let mut j: usize = 0;
    while j < l.t.len()
        invariant
            0 <= j <= lt.len(),
            lt == l.t@,
            pv == ports@,
            strings_view(legacy_keys@) == legacy_only(lt.take(j as int), pv),
        decreases lt.len() - j,
    {
        let key = l.t.key_at(j);
        proof {
            assert(lt.take(j + 1).drop_last() =~= lt.take(j as int));
            assert(lt.take(j + 1).last().0 == key@);
        }
        if !ports.contains_key(key.as_str()) {
            let ghost b = legacy_keys@;
            legacy_keys.push(string_of(key.as_str()));
            assert(strings_view(legacy_keys@) =~= strings_view(b).push(key@));
        }
        j = j + 1;
    }
    proof {
        assert(lt.take(lt.len() as int) =~= lt);
    }
    // Observed keys in connector-index order, restricted to keys `c` names.
    let mut observed_order: Vec<String> = Vec::new();
    let ghost cv = strings_view(l.c@);
    let mut idx: u16 = 0;
    while idx < 256
        invariant
            0 <= idx <= 256,
            pv == ports@,
            cv == strings_view(l.c@),
            strings_view(observed_order@) == keep_in(keys_by_index(pv, idx as nat), cv),
        decreases 256 - idx,
    {
        let mut k: usize = 0;
        let ghost start = observed_order@;
        let ghost base = keys_by_index(pv, idx as nat);
        proof {
            lemma_keep_in_concat(base, keys_at_index(pv, idx as u8), cv);
        }
        while k < ports.len()
            invariant
                0 <= k <= pv.len(),
                0 <= idx < 256,
                pv == ports@,
                cv == strings_view(l.c@),
                strings_view(observed_order@) == keep_in(base, cv) + keep_in(
                    keys_at_index(pv.take(k as int), idx as u8),
                    cv,
                ),
            decreases pv.len() - k,
        {
            let key = ports.key_at(k);
            let o = *ports.value_at(k);
            let ghost pre = pv.take(k as int);
            proof {
                assert(pv.take(k + 1).drop_last() =~= pre);
                assert(pv.take(k + 1).last() == (key@, o));
            }
            let ghost ka = keys_at_index(pre, idx as u8);
            let ghost b = observed_order@;
            if o.index == Some(idx as u8) && contains_string(&l.c, key.as_str()) {
                observed_order.push(string_of(key.as_str()));
                assert(strings_view(observed_order@) =~= strings_view(b).push(key@));
            }
            proof {
                let kb = keys_at_index(pv.take(k + 1), idx as u8);
                if o.index == Some(idx as u8) {
                    assert(kb == ka.push(key@));
                    assert(kb.drop_last() =~= ka);
                    if cv.contains(key@) {
                        assert(keep_in(kb, cv) == keep_in(ka, cv).push(key@));
                        assert(keep_in(base, cv) + keep_in(ka, cv).push(key@) =~= (keep_in(base, cv)
                            + keep_in(ka, cv)).push(key@));
                    } else {
                        assert(keep_in(kb, cv) == keep_in(ka, cv));
                    }
                } else {
                    assert(kb == ka);
                }
            }
            k = k + 1;
        }
        proof {
            assert(pv.take(pv.len() as int) =~= pv);
            assert(keys_by_index(pv, (idx + 1) as nat) == base + keys_at_index(pv, idx as u8));
        }
        idx = idx + 1;
    }
    let mut legacy_order: Vec<String> = Vec::new();
    let mut c: usize = 0;
    while c < l.c.len()
        invariant
            0 <= c <= l.c@.len(),
            pv == ports@,
            cv == strings_view(l.c@),
            strings_view(legacy_order@) == keep_in(cv.take(c as int), map_keys(pv)),
        decreases l.c@.len() - c,
    {
        proof {
            assert(cv.take(c + 1).drop_last() =~= cv.take(c as int));
            assert(cv.take(c + 1).last() == l.c@[c as int]@);
            crate::strmap::lemma_key_index(pv, l.c@[c as int]@);
            if map_keys(pv).contains(l.c@[c as int]@) {
                let q = choose|q: int| 0 <= q < map_keys(pv).len() && map_keys(pv)[q] == l.c@[c as int]@;
                assert(pv[q].0 == l.c@[c as int]@);
            }
            if crate::strmap::key_index(pv, l.c@[c as int]@) >= 0 {
                assert(map_keys(pv)[crate::strmap::key_index(pv, l.c@[c as int]@)] == l.c@[c as int]@);
            }
        }
        if ports.contains_key(l.c[c].as_str()) {
            let ghost b = legacy_order@;
            legacy_order.push(string_of(l.c[c].as_str()));
            assert(strings_view(legacy_order@) =~= strings_view(b).push(l.c@[c as int]@));
        }
        c = c + 1;
    }
    proof {
        assert(cv.take(cv.len() as int) =~= cv);
    }
    let same = strings_eq(&observed_order, &legacy_order);
    let order_mismatch = if same {
        None
    } else {
        let mut m = string_of("observed ");
        push_debug_list(&mut m, &observed_order);
        push_str(&mut m, " vs legacy ");
        push_debug_list(&mut m, &legacy_order);
        Some(m)
    };
    TypeCheck {
        dir_agreements: agreements,
        dir_conflicts: conflicts,
        only_in_corpus: corpus_only,
        only_in_legacy: legacy_keys,
        order_mismatch,
    }
}

proof fn lemma_keep_in_concat(a: Seq<Seq<char>>, b: Seq<Seq<char>>, keep: Seq<Seq<char>>)
    ensures
        keep_in(a + b, keep) == keep_in(a, keep) + keep_in(b, keep),
    decreases b.len(),
{
    if b.len() == 0 {
        assert(a + b =~= a);
        assert(keep_in(a, keep) + keep_in(b, keep) =~= keep_in(a, keep));
    } else {
        lemma_keep_in_concat(a, b.drop_last(), keep);
        assert((a + b).drop_last() =~= a + b.drop_last());
        assert((a + b).last() == b.last());
        assert(keep_in(a + b, keep) =~= keep_in(a, keep) + keep_in(b, keep));
    }
}

fn strings_eq(a: &Vec<String>, b: &Vec<String>) -> (r: bool)
    ensures
        r == (strings_view(a@) == strings_view(b@)),
{
    if a.len() != b.len() {
        assert(strings_view(a@).len() != strings_view(b@).len());
        return false;
    }
    let mut i: usize = 0;
    while i < a.len()
        invariant
            0 <= i <= a@.len(),
            a@.len() == b@.len(),
            forall|j: int| 0 <= j < i ==> a@[j]@ == b@[j]@,
        decreases a@.len() - i,
    {
        if !str_eq(a[i].as_str(), b[i].as_str()) {
            assert(strings_view(a@)[i as int] != strings_view(b@)[i as int]);
            return false;
        }
        i = i + 1;
    }
    assert(strings_view(a@) =~= strings_view(b@));
    true
}

/// Cross-check corpus observations against a legacy database, reporting per
/// type present in **both**.
pub fn crosscheck(obs: &Observations, legacy: &LegacyDb) -> (r: StrMap<TypeCheck>)
    requires
        forall|i: int| 0 <= i < obs@.len() ==> (#[trigger] obs@[i]).1@.len() <= u32::MAX,
    ensures
        forall|ty: Seq<char>|
            match #[trigger] map_get(r@, ty) {
                Some(c) => (map_get(obs@, ty) matches Some(p) && map_get(legacy@, ty) matches Some(l)
                    && c@ == type_check(p@, l)),
                None => map_get(obs@, ty) is None || map_get(legacy@, ty) is None,
            },
{
    let ghost ov = obs@;
    let mut out: StrMap<TypeCheck> = StrMap::new();
    obs.sorted();
    let mut i: usize = 0;
    while i < obs.len()
        invariant
            0 <= i <= ov.len(),
            ov == obs@,
            crate::strmap::sorted_keys(ov),
            forall|q: int| 0 <= q < ov.len() ==> (#[trigger] ov[q]).1@.len() <= u32::MAX,
            forall|ty: Seq<char>|
                match #[trigger] map_get(out@, ty) {
                    Some(c) => (map_get(ov.take(i as int), ty) matches Some(p) && map_get(
                        legacy@,
                        ty,
                    ) matches Some(l) && c@ == type_check(p@, l)),
                    None => map_get(ov.take(i as int), ty) is None || map_get(legacy@, ty) is None,
                },
        decreases ov.len() - i,
    {
        let ty = obs.key_at(i);
        let ports = obs.value_at(i);
        let ghost pre = ov.take(i as int);
        proof {
            assert(ov.take(i + 1) =~= pre.push(ov[i as int]));
            crate::strmap::lemma_key_index(pre, ty@);
            crate::strmap::lemma_key_index_unique(ov, ty@, i as int);
            if crate::strmap::key_index(pre, ty@) >= 0 {
                let j = crate::strmap::key_index(pre, ty@);
                assert(pre[j] == ov[j]);
                crate::strmap::lemma_key_index_unique(ov, ty@, j);
            }
            assert(map_get(pre, ty@) is None);
        }
        match legacy.get(ty.as_str()) {
            Some(l) => {
                let c = check_type(ports, l);
                out.insert(string_of(ty.as_str()), c);
            },
            None => {},
        }
        proof {
            assert forall|t: Seq<char>| #[trigger] map_get(ov.take(i + 1), t) == (if t == ty@ {
                Some(ov[i as int].1)
            } else {
                map_get(pre, t)
            }) by {
                crate::strmap::lemma_map_get_push(pre, ov[i as int], t);
            }
        }
        i = i + 1;
    }
    proof {
        assert(ov.take(ov.len() as int) =~= ov);
    }
    out
}

} // verus!
