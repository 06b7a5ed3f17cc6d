//! Static checks with suggestions for near misses.
use crate::text::{ascii_lower, chars_of, push_char, push_str, string_of, to_ascii_lower};
use vstd::prelude::*;
use vstd::string::StrSliceExecFns;
use vstd::utf8::encode_utf8;
use crate::connectors::{builtin, builtin_spec, builtin_type_names, specs_view, PortDir, PortSpec};
use crate::ir::ast::{
    bindings_of, blocks_of, derefs, params_of, wire_pairs_of, BlockDecl, Item, Module, PortRef,
};
use crate::ir::semantics::{all_ok, fail, lemma_all_ok_sticks, reports, then};
use crate::text::str_eq;

verus! {

pub open spec fn min_nat(a: nat, b: nat) -> nat {
    if a <= b {
        a
    } else {
        b
    }
}

/// Levenshtein distance: the fewest single-element insertions, deletions
/// and substitutions turning `a` into `b`.
pub open spec fn lev(a: Seq<u8>, b: Seq<u8>) -> nat
    decreases a.len() + b.len(),
{
    if a.len() == 0 {
        b.len()
    } else if b.len() == 0 {
        a.len()
    } else {
        let subst = lev(a.drop_last(), b.drop_last()) + if a.last() == b.last() {
            0nat
        } else {
            1nat
        };
        min_nat(min_nat(subst, lev(a.drop_last(), b) + 1), lev(a, b.drop_last()) + 1)
    }
}

proof fn lemma_lev_le(a: Seq<u8>, b: Seq<u8>)
    ensures
        lev(a, b) <= a.len() || lev(a, b) <= b.len(),
        lev(a, b) <= (if a.len() >= b.len() {
            a.len()
        } else {
            b.len()
        }),
    decreases a.len() + b.len(),
{
    if a.len() > 0 && b.len() > 0 {
        lemma_lev_le(a.drop_last(), b.drop_last());
    }
}

fn inc_cap(v: usize) -> (r: usize)
    ensures
        r == (if v < usize::MAX {
            v + 1
        } else {
            v as int
        }),
{
    if v < usize::MAX {
        v + 1
    } else {
        v
    }
}

/// Levenshtein distance over bytes (inputs are ASCII identifiers).
pub fn edit_distance(a: &str, b: &str) -> (r: usize)
    ensures
        r == lev(encode_utf8(a@), encode_utf8(b@)),
{
    let av = a.as_bytes();
    let bv = b.as_bytes();
    let ghost x = av@;
    let ghost y = bv@;
    let n = bv.len();
    let m = av.len();
    // prev[j] = lev(x[..i], y[..j])
    let mut prev: Vec<usize> = Vec::new();
    let mut j: usize = 0;
    while j < n
        invariant
            0 <= j <= n,
            n == y.len(),
            prev@.len() == j,
            forall|q: int| 0 <= q < j ==> prev@[q] == lev(x.take(0), y.take(q)),
        decreases n - j,
    {
        proof {
            assert(x.take(0).len() == 0);
        }
        prev.push(j);
        j = j + 1;
    }
    proof {
        assert(x.take(0).len() == 0);
    }
    prev.push(n);
    let mut i: usize = 0;
    while i < av.len()
        invariant
            0 <= i <= x.len(),
            m == x.len(),
            x == av@,
            y == bv@,
            n == y.len(),
            prev@.len() == n + 1,
            forall|q: int| 0 <= q <= n ==> prev@[q] == lev(x.take(i as int), y.take(q)),
        decreases x.len() - i,
    {
        let ca = av[i];
        let mut cur: Vec<usize> = Vec::new();
        proof {
            lemma_lev_le(x.take(i + 1), y.take(0));
            assert(y.take(0).len() == 0);
        }
        cur.push(i + 1);
        let mut k: usize = 0;
        while k < n
            invariant
                0 <= k <= n,
                i < x.len(),
                m == x.len(),
                x == av@,
                y == bv@,
                n == y.len(),
                ca == x[i as int],
                prev@.len() == n + 1,
                forall|q: int| 0 <= q <= n ==> prev@[q] == lev(x.take(i as int), y.take(q)),
                cur@.len() == k + 1,
                forall|q: int| 0 <= q <= k ==> cur@[q] == lev(x.take(i + 1), y.take(q)),
            decreases n - k,
        {
            let cb = bv[k];
            proof {
                let a1 = x.take(i + 1);
                let b1 = y.take(k + 1);
                assert(a1.drop_last() =~= x.take(i as int));
                assert(b1.drop_last() =~= y.take(k as int));
                assert(a1.last() == ca);
                assert(b1.last() == cb);
                lemma_lev_le(x.take(i as int), y.take(k as int));
                lemma_lev_le(x.take(i as int), b1);
                lemma_lev_le(a1, y.take(k as int));
            }
            let subst = prev[k] + if ca != cb {
                1
            } else {
                0
            };
            let del = inc_cap(prev[k + 1]);
            let ins = inc_cap(cur[k]);
            let mut best = subst;
            if del < best {
                best = del;
            }
            if ins < best {
                best = ins;
            }
            cur.push(best);
            k = k + 1;
        }
        prev = cur;
        i = i + 1;
    }
    proof {
        assert(x.take(x.len() as int) =~= x);
        assert(y.take(n as int) =~= y);
    }
    prev[n]
}

/// The input with ASCII letters lowercased.
pub open spec fn lower(s: Seq<char>) -> Seq<char> {
    s.map_values(|c: char| ascii_lower(c))
}

fn lowercase(s: &str) -> (r: String)
    ensures
        r@ == lower(s@),
{
    let cs = chars_of(s);
    let mut out = String::new();
    let mut i: usize = 0;
    while i < cs.len()
        invariant
            0 <= i <= cs@.len(),
            cs@ == s@,
            out@ == lower(cs@.take(i as int)),
        decreases cs@.len() - i,
    {
        push_char(&mut out, to_ascii_lower(cs[i]));
        proof {
            assert(lower(cs@.take(i + 1)) =~= lower(cs@.take(i as int)).push(ascii_lower(cs@[i as int])));
        }
        i = i + 1;
    }
    proof {
        assert(cs@.take(cs@.len() as int) =~= cs@);
    }
    out
}

/// How far a candidate may be from the input: 2 when both are at least 6
/// bytes long, else 1.
pub open spec fn cutoff(needle: Seq<char>, candidate: Seq<char>) -> nat {
    if encode_utf8(needle).len() >= 6 && encode_utf8(candidate).len() >= 6 {
        2
    } else {
        1
    }
}

pub open spec fn distance_to(input: Seq<char>, candidate: Seq<char>) -> nat {
    lev(encode_utf8(lower(input)), encode_utf8(lower(candidate)))
}

/// The closest candidate within its cutoff (the first among equals).
pub open spec fn closest(input: Seq<char>, cs: Seq<Seq<char>>) -> Option<(nat, Seq<char>)>
    decreases cs.len(),
{
    if cs.len() == 0 {
        None
    } else {
        let prev = closest(input, cs.drop_last());
        let c = cs.last();
        let d = distance_to(input, c);
        if d <= cutoff(lower(input), c) {
            match prev {
                Some((pd, pc)) => if d < pd {
                    Some((d, c))
                } else {
                    prev
                },
                None => Some((d, c)),
            }
        } else {
            prev
        }
    }
}

/// The hint `suggest` gives.
pub open spec fn suggestion(input: Seq<char>, cs: Seq<Seq<char>>) -> Seq<char> {
    match closest(input, cs) {
        Some((_, c)) => "; did you mean `"@ + c + "`?"@,
        None => seq![],
    }
}

/// A "; did you mean `…`?" hint when a candidate is within a small edit
/// distance of the input (case-insensitive), or `""` when nothing is close.
pub fn suggest(input: &str, candidates: &Vec<&str>) -> (r: String)
    ensures
        r@ == suggestion(input@, candidates@.map_values(|c: &str| c@)),
{
    let needle = lowercase(input);
    let ghost cv = candidates@.map_values(|c: &str| c@);
    let mut best: Option<(usize, &str)> = None;
    let mut i: usize = 0;
    while i < candidates.len()
        invariant
            0 <= i <= candidates@.len(),
            cv == candidates@.map_values(|c: &str| c@),
            needle@ == lower(input@),
            match best {
                Some((d, c)) => closest(input@, cv.take(i as int)) == Some((d as nat, c@)),
                None => closest(input@, cv.take(i as int)) is None,
            },
        decreases candidates@.len() - i,
    {
        let c = candidates[i];
        proof {
            assert(cv.take(i + 1).drop_last() =~= cv.take(i as int));
            assert(cv.take(i + 1).last() == c@);
        }
        let lc = lowercase(c);
        let d = edit_distance(needle.as_str(), lc.as_str());
        let limit: usize = if needle.as_str().as_bytes().len() >= 6 && c.as_bytes().len() >= 6 {
            2
        } else {
            1
        };
        if d <= limit {
            match best {
                Some((pd, _)) => {
                    if d < pd {
                        best = Some((d, c));
                    }
                },
                None => {
                    best = Some((d, c));
                },
            }
        }
        i = i + 1;
    }
    proof {
        assert(cv.take(cv.len() as int) =~= cv);
    }
    match best {
        Some((_, c)) => {
            let mut out = string_of("; did you mean `");
            push_str(&mut out, c);
            push_str(&mut out, "`?");
            out
        },
        None => String::new(),
    }
}

// ---------------------------------------------------------------------------
// Ports of managed blocks
// ---------------------------------------------------------------------------

/// The first managed block named `slug`.
pub open spec fn first_block(bs: Seq<BlockDecl>, slug: Seq<char>) -> Option<BlockDecl>
    decreases bs.len(),
{
    if bs.len() == 0 {
        None
    } else if bs[0].slug@ == slug {
        Some(bs[0])
    } else {
        first_block(bs.drop_first(), slug)
    }
}

pub open spec fn spec_keys(specs: Seq<(Seq<char>, PortDir)>) -> Seq<Seq<char>> {
    specs.map_values(|p: (Seq<char>, PortDir)| p.0)
}

/// The direction of the first port keyed `key`.
pub open spec fn first_dir(specs: Seq<(Seq<char>, PortDir)>, key: Seq<char>) -> Option<PortDir>
    decreases specs.len(),
{
    if specs.len() == 0 {
        None
    } else if specs[0].0 == key {
        Some(specs[0].1)
    } else {
        first_dir(specs.drop_first(), key)
    }
}

/// Strings joined with `, `.
pub open spec fn join(ks: Seq<Seq<char>>) -> Seq<char>
    decreases ks.len(),
{
    if ks.len() == 0 {
        seq![]
    } else if ks.len() == 1 {
        ks[0]
    } else {
        join(ks.drop_last()) + ", "@ + ks.last()
    }
}

/// Whether `key` names a grown gate input (`I` and digits).
pub open spec fn grown_input(key: Seq<char>) -> bool {
    key.len() >= 2 && key[0] == 'I' && forall|i: int| 1 <= i < key.len() ==> crate::text::is_digit(#[trigger] key[i])
}

/// The extra hint for a grown input on a two-input gate.
pub open spec fn gate_hint(ty: Seq<char>, key: Seq<char>) -> Seq<char> {
    if (ty == "And"@ || ty == "Or"@) && grown_input(key) {
        "; Loxone Config gates are fixed two-input (a grown I3 is silently deleted on save) — cascade 2-input gates instead"@
    } else {
        seq![]
    }
}

/// `key` is a port of the managed block `slug`.
pub open spec fn known_port(bs: Seq<BlockDecl>, slug: Seq<char>, key: Seq<char>) -> Result<(), Seq<char>> {
    match first_block(bs, slug) {
        None => Ok(()),
        Some(b) => match builtin_spec(b.block_type@) {
            None => Ok(()),
            Some(specs) => if first_dir(specs, key) is Some {
                Ok(())
            } else {
                Err(
                    "unknown port `"@ + key + "` on block `"@ + slug + "` (type `"@ + b.block_type@
                        + "`); known ports: "@ + join(spec_keys(specs)) + suggestion(
                        key,
                        spec_keys(specs),
                    ) + gate_hint(b.block_type@, key),
                )
            },
        },
    }
}

/// A managed block's type is in the table, and its parameters are ports.
pub open spec fn block_ports(bs: Seq<BlockDecl>, b: BlockDecl) -> Result<(), Seq<char>> {
    let ps = params_of(bindings_of(b.args@));
    if builtin_spec(b.block_type@) is None {
        Err(
            "block `"@ + b.slug@ + "`: type `"@ + b.block_type@
                + "` is not in the verified builtin table and cannot be created"@ + suggestion(
                b.block_type@,
                builtin_type_names(),
            ),
        )
    } else {
        all_ok(ps.len(), |j: int| known_port(bs, b.slug@, ps[j].0))
    }
}

/// A wire end on a managed block: a port of it, of the right direction.
pub open spec fn endpoint(bs: Seq<BlockDecl>, ep: (Seq<char>, Seq<char>), source: bool) -> Result<(), Seq<char>> {
    match first_block(bs, ep.0) {
        None => Ok(()),
        Some(b) => then(
            known_port(bs, ep.0, ep.1),
            match builtin_spec(b.block_type@) {
                Some(specs) => match first_dir(specs, ep.1) {
                    Some(dir) => if (source && dir == PortDir::Output) || (!source && dir != PortDir::Output) {
                        Ok(())
                    } else {
                        Err(
                            "`"@ + ep.0 + "."@ + ep.1 + "` is an "@ + (if dir == PortDir::Output {
                                "output"@
                            } else {
                                "input"@
                            }) + " port and cannot be used as "@ + (if source {
                                "a wire source"@
                            } else {
                                "a wire sink"@
                            }),
                        )
                    },
                    None => Ok(()),
                },
                None => Ok(()),
            },
        ),
    }
}

/// The port checks of a module: every managed block's type and
/// parameters, then every wire end on a managed block.
pub open spec fn ports_check(items: Seq<Item>) -> Result<(), Seq<char>> {
    let bs = blocks_of(items);
    let ws = wire_pairs_of(items);
    then(
        all_ok(bs.len(), |k: int| block_ports(bs, bs[k])),
        all_ok(ws.len(), |k: int| then(endpoint(bs, ws[k].0, true), endpoint(bs, ws[k].1, false))),
    )
}

proof fn lemma_first_block_slug(bs: Seq<BlockDecl>, slug: Seq<char>)
    ensures
        first_block(bs, slug) matches Some(b) ==> b.slug@ == slug,
    decreases bs.len(),
{
    if bs.len() > 0 && bs[0].slug@ != slug {
        lemma_first_block_slug(bs.drop_first(), slug);
    }
}

fn first_block_exec<'a>(bs: &Vec<&'a BlockDecl>, slug: &str) -> (r: Option<&'a BlockDecl>)
    ensures
        match r {
            Some(b) => first_block(derefs(bs@), slug@) == Some(*b),
            None => first_block(derefs(bs@), slug@) is None,
        },
{
    let ghost bv = derefs(bs@);
    let mut i: usize = 0;
    assert(bv.subrange(0, bv.len() as int) =~= bv);
    while i < bs.len()
        invariant
            0 <= i <= bv.len(),
            bv == derefs(bs@),
            first_block(bv, slug@) == first_block(bv.subrange(i as int, bv.len() as int), slug@),
        decreases bv.len() - i,
    {
        proof {
            assert(bv.subrange(i as int, bv.len() as int)[0] == *bs@[i as int]);
            assert(bv.subrange(i as int, bv.len() as int).drop_first() =~= bv.subrange(
                i + 1,
                bv.len() as int,
            ));
        }
        if str_eq(bs[i].slug.as_str(), slug) {
            return Some(bs[i]);
        }
        i = i + 1;
    }
    None
}

fn first_dir_exec(specs: &Vec<PortSpec>, key: &str) -> (r: Option<PortDir>)
    ensures
        r == first_dir(specs_view(specs@), key@),
{
    let ghost sv = specs_view(specs@);
    let mut i: usize = 0;
    assert(sv.subrange(0, sv.len() as int) =~= sv);
    while i < specs.len()
        invariant
            0 <= i <= sv.len(),
            sv == specs_view(specs@),
            first_dir(sv, key@) == first_dir(sv.subrange(i as int, sv.len() as int), key@),
        decreases sv.len() - i,
    {
        proof {
            assert(sv.subrange(i as int, sv.len() as int)[0] == (specs@[i as int].key@, specs@[i as int].dir));
            assert(sv.subrange(i as int, sv.len() as int).drop_first() =~= sv.subrange(
                i + 1,
                sv.len() as int,
            ));
        }
        if str_eq(specs[i].key, key) {
            return Some(specs[i].dir);
        }
        i = i + 1;
    }
    None
}

fn is_grown_input(key: &str) -> (r: bool)
    ensures
        r == grown_input(key@),
{
    let cs = chars_of(key);
    if cs.len() < 2 || cs[0] != 'I' {
        return false;
    }
    let mut i: usize = 1;
    while i < cs.len()
        invariant
            1 <= i <= cs@.len(),
            cs@ == key@,
            forall|j: int| 1 <= j < i ==> crate::text::is_digit(#[trigger] cs@[j]),
        decreases cs@.len() - i,
    {
        if !('0' <= cs[i] && cs[i] <= '9') {
            return false;
        }
        i = i + 1;
    }
    true
}

fn unknown_port(b: &BlockDecl, specs: &Vec<PortSpec>, key: &str) -> (m: String)
    requires
        builtin_spec(b.block_type@) == Some(specs_view(specs@)),
    ensures
        known_port_msg(*b, specs_view(specs@), key@) == m@,
{
    let ghost sv = specs_view(specs@);
    let mut keys: Vec<&str> = Vec::new();
    let mut joined = String::new();
    let mut i: usize = 0;
    while i < specs.len()
        invariant
            0 <= i <= specs@.len(),
            sv == specs_view(specs@),
            keys@.map_values(|c: &str| c@) == spec_keys(sv.take(i as int)),
            joined@ == join(spec_keys(sv.take(i as int))),
        decreases specs@.len() - i,
    {
        proof {
            assert(sv.take(i + 1) =~= sv.take(i as int).push(sv[i as int]));
            assert(spec_keys(sv.take(i + 1)) =~= spec_keys(sv.take(i as int)).push(specs@[i as int].key@));
        }
        let ghost before = keys@.map_values(|c: &str| c@);
        if i > 0 {
            push_str(&mut joined, ", ");
        }
        push_str(&mut joined, specs[i].key);
        keys.push(specs[i].key);
        proof {
            assert(keys@.map_values(|c: &str| c@) =~= before.push(specs@[i as int].key@));
            let ks = spec_keys(sv.take(i + 1));
            if i == 0 {
                assert(ks.len() == 1);
            } else {
                assert(ks.drop_last() =~= spec_keys(sv.take(i as int)));
            }
        }
        i = i + 1;
    }
    assert(sv.take(sv.len() as int) =~= sv);
    let hint = suggest(key, &keys);
    let t = b.block_type.as_str();
    let mut m = String::new();
    push_str(&mut m, "unknown port `");
    push_str(&mut m, key);
    push_str(&mut m, "` on block `");
    push_str(&mut m, b.slug.as_str());
    push_str(&mut m, "` (type `");
    push_str(&mut m, t);
    push_str(&mut m, "`); known ports: ");
    push_str(&mut m, joined.as_str());
    push_str(&mut m, hint.as_str());
    if (str_eq(t, "And") || str_eq(t, "Or")) && is_grown_input(key) {
        push_str(&mut m, "; Loxone Config gates are fixed two-input (a grown I3 is silently deleted on save) — cascade 2-input gates instead");
    }
    m
}

/// The message for an unknown port.
pub open spec fn known_port_msg(b: BlockDecl, specs: Seq<(Seq<char>, PortDir)>, key: Seq<char>) -> Seq<char> {
    "unknown port `"@ + key + "` on block `"@ + b.slug@ + "` (type `"@ + b.block_type@
        + "`); known ports: "@ + join(spec_keys(specs)) + suggestion(key, spec_keys(specs))
        + gate_hint(b.block_type@, key)
}

fn known_port_exec(bs: &Vec<&BlockDecl>, slug: &str, key: &str) -> (res: crate::error::Result<()>)
    ensures
        reports(res, known_port(derefs(bs@), slug@, key@)),
{
    match first_block_exec(bs, slug) {
        None => Ok(()),
        Some(b) => match builtin(b.block_type.as_str()) {
            None => Ok(()),
            Some(specs) => {
                if first_dir_exec(&specs, key).is_some() {
                    Ok(())
                } else {
                    let m = unknown_port(b, &specs, key);
                    proof {
                        lemma_first_block_slug(derefs(bs@), slug@);
                    }
                    fail(m)
                }
            },
        },
    }
}

fn block_ports_exec(bs: &Vec<&BlockDecl>, b: &BlockDecl) -> (res: crate::error::Result<()>)
    ensures
        reports(res, block_ports(derefs(bs@), *b)),
{
    if builtin(b.block_type.as_str()).is_none() {
        let types = crate::connectors::builtin_types();
        let hint = suggest(b.block_type.as_str(), &types);
        let mut m = String::new();
        push_str(&mut m, "block `");
        push_str(&mut m, b.slug.as_str());
        push_str(&mut m, "`: type `");
        push_str(&mut m, b.block_type.as_str());
        push_str(&mut m, "` is not in the verified builtin table and cannot be created");
        push_str(&mut m, hint.as_str());
        return fail(m);
    }
    let ps = b.params();
    let ghost pv = ps@.map_values(|p: (&str, &crate::ir::ast::Value)| (p.0@, *p.1));
    let ghost f = |j: int| known_port(derefs(bs@), b.slug@, pv[j].0);
    let mut j: usize = 0;
    while j < ps.len()
        invariant
            0 <= j <= ps@.len(),
            pv == ps@.map_values(|p: (&str, &crate::ir::ast::Value)| (p.0@, *p.1)),
            pv == params_of(bindings_of(b.args@)),
            builtin_spec(b.block_type@) is Some,
            f == (|j: int| known_port(derefs(bs@), b.slug@, pv[j].0)),
            all_ok(j as nat, f) is Ok,
        decreases ps@.len() - j,
    {
        let r = known_port_exec(bs, b.slug.as_str(), ps[j].0);
        assert(pv[j as int].0 == ps@[j as int].0@);
        assert(all_ok((j + 1) as nat, f) == then(all_ok(j as nat, f), f(j as int)));
        if r.is_err() {
            proof {
                lemma_all_ok_sticks(f, (j + 1) as nat, pv.len());
            }
            return r;
        }
        j = j + 1;
    }
    Ok(())
}

fn endpoint_exec(bs: &Vec<&BlockDecl>, ep: &PortRef, source: bool) -> (res: crate::error::Result<()>)
    ensures
        reports(res, endpoint(derefs(bs@), crate::ir::ast::port_view(*ep), source)),
{
    let b = match first_block_exec(bs, ep.slug.as_str()) {
        None => {
            return Ok(());
        },
        Some(b) => b,
    };
    let r = known_port_exec(bs, ep.slug.as_str(), ep.port.as_str());
    if r.is_err() {
        return r;
    }
    let specs = match builtin(b.block_type.as_str()) {
        None => {
            return Ok(());
        },
        Some(specs) => specs,
    };
    let dir = match first_dir_exec(&specs, ep.port.as_str()) {
        None => {
            return Ok(());
        },
        Some(d) => d,
    };
    let is_out = match dir {
        PortDir::Output => true,
        _ => false,
    };
    let ok = if source {
        is_out
    } else {
        !is_out
    };
    if ok {
        return Ok(());
    }
    let mut m = String::new();
    push_str(&mut m, "`");
    push_str(&mut m, ep.slug.as_str());
    push_str(&mut m, ".");
    push_str(&mut m, ep.port.as_str());
    push_str(&mut m, "` is an ");
    if is_out {
        push_str(&mut m, "output");
    } else {
        push_str(&mut m, "input");
    }
    push_str(&mut m, " port and cannot be used as ");
    if source {
        push_str(&mut m, "a wire source");
    } else {
        push_str(&mut m, "a wire sink");
    }
    fail(m)
}

/// Check every managed block's type, port names, and wire directions
/// against the builtin table. Extern ports are open-world (they exist or
/// not in the base config) and are checked at compile time instead.
pub fn validate_ports(module: &Module) -> (res: crate::error::Result<()>)
    ensures
        reports(res, ports_check(module.items@)),
{
    let bs = module.blocks();
    let ghost bv = derefs(bs@);
    let ghost f = |k: int| block_ports(bv, bv[k]);
    let mut k: usize = 0;
    while k < bs.len()
        invariant
            0 <= k <= bs@.len(),
            bv == derefs(bs@),
            bv == blocks_of(module.items@),
            f == (|k: int| block_ports(bv, bv[k])),
            all_ok(k as nat, f) is Ok,
        decreases bs@.len() - k,
    {
        let r = block_ports_exec(&bs, bs[k]);
        assert(bv[k as int] == *bs@[k as int]);
        assert(all_ok((k + 1) as nat, f) == then(all_ok(k as nat, f), f(k as int)));
        if r.is_err() {
            proof {
                lemma_all_ok_sticks(f, (k + 1) as nat, bv.len());
            }
            return r;
        }
        k = k + 1;
    }
    let ws = module.wire_pairs();
    let ghost wv = ws@.map_values(|p: (PortRef, PortRef)| (crate::ir::ast::port_view(p.0), crate::ir::ast::port_view(p.1)));
    let ghost g = |k: int| then(endpoint(bv, wv[k].0, true), endpoint(bv, wv[k].1, false));
    let mut k: usize = 0;
    while k < ws.len()
        invariant
            0 <= k <= ws@.len(),
            bv == derefs(bs@),
            bv == blocks_of(module.items@),
            all_ok(bv.len(), f) is Ok,
            f == (|k: int| block_ports(bv, bv[k])),
            wv == ws@.map_values(|p: (PortRef, PortRef)| (crate::ir::ast::port_view(p.0), crate::ir::ast::port_view(p.1))),
            wv == wire_pairs_of(module.items@),
            g == (|k: int| then(endpoint(bv, wv[k].0, true), endpoint(bv, wv[k].1, false))),
            all_ok(k as nat, g) is Ok,
        decreases ws@.len() - k,
    {
        assert(all_ok((k + 1) as nat, g) == then(all_ok(k as nat, g), g(k as int)));
        let r = endpoint_exec(&bs, &ws[k].0, true);
        let r = if r.is_err() {
            r
        } else {
            endpoint_exec(&bs, &ws[k].1, false)
        };
        if r.is_err() {
            proof {
                lemma_all_ok_sticks(g, (k + 1) as nat, wv.len());
            }
            return r;
        }
        k = k + 1;
    }
    Ok(())
}

} // verus!
