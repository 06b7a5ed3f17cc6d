//! Drift triage: classify how a config moved away from the lockfile's
//! baseline and say what resolves each change — read-only.
//!
//! [`crate::diff`] lists raw UUID-keyed changes between two files. This
//! module names those changes by their managed slug, sorts them into "a
//! recompile will undo this unless you adopt it in source", "new block one
//! incremental adopt away", "push the output you already compiled", and
//! "outside managed scope", and pairs each finding with the statement or
//! command that resolves it. Nothing here writes anything.
use crate::connectors::{builtin, builtin_spec};
use crate::diff::{diff, SParamChange, SRename};
use crate::doc::{
    element_at_spec, last_assigned, objects_in, opt_view, owner_assignments, ports, ports_spec,
    LoxoneDoc, ObjectSummary, SObject, SPort,
};
use crate::xml::Element;
use crate::ir::decompile::{dedupe, dedupe_spec, slugify, slugify_spec};
use crate::lock::{LockedExternal, LockedObject, Lockfile, Tombstone};
use crate::strmap::{map_get, map_insert, sorted_keys, StrMap};
use crate::text::{push_str, str_eq, string_of};
use crate::xml::SElement;
use vstd::prelude::*;

verus! {

/// One foreign edit touching identity the compiler owns, with the action
/// that resolves it. `slug` is the managed block or extern concerned.
#[derive(Debug, Clone, PartialEq, Eq)]
pub struct ManagedChange {
    pub slug: String,
    pub block_type: String,
    /// What changed, e.g. `param I2: "1" -> "2"`.
    pub detail: String,
    /// What resolves it, e.g. `a recompile restores "1"; …`.
    pub action: String,
}

pub struct SChange {
    pub slug: Seq<char>,
    pub block_type: Seq<char>,
    pub detail: Seq<char>,
    pub action: Seq<char>,
}

impl View for ManagedChange {
    type V = SChange;

    open spec fn view(&self) -> SChange {
        SChange {
            slug: self.slug@,
            block_type: self.block_type@,
            detail: self.detail@,
            action: self.action@,
        }
    }
}

/// A new block of a managed type — one incremental adopt away from source
/// control. `slug` is a suggestion derived from the title, unique against
/// the lockfile and the other suggestions.
#[derive(Debug, Clone, PartialEq, Eq)]
pub struct Adoptable {
    pub uuid: String,
    pub block_type: String,
    pub title: Option<String>,
    pub slug: String,
}

pub struct SAdoptable {
    pub uuid: Seq<char>,
    pub block_type: Seq<char>,
    pub title: Option<Seq<char>>,
    pub slug: Seq<char>,
}

impl View for Adoptable {
    type V = SAdoptable;

    open spec fn view(&self) -> SAdoptable {
        SAdoptable {
            uuid: self.uuid@,
            block_type: self.block_type@,
            title: opt_view(self.title),
            slug: self.slug@,
        }
    }
}

/// What [`triage`] found. Empty vectors and zero counts mean the drift is
/// entirely save noise the diff projection cannot see (position moves),
/// or locale renames.
#[derive(Debug, Clone, PartialEq, Eq)]
pub struct StatusReport {
    /// Removals the last compile already made that this config still
    /// carries: the compiled output was never pushed.
    pub pending_push: Vec<Tombstone>,
    /// Foreign edits to managed identity, each with its resolving action.
    pub managed: Vec<ManagedChange>,
    /// New managed-type blocks, ready to adopt. Only detected with a
    /// reference document.
    pub adoptable: Vec<Adoptable>,
    /// Changes outside managed scope — compiles pass them through.
    pub unmanaged_changes: usize,
    /// Locale-suspect renames (save noise, not drift).
    pub locale_renames: usize,
    /// Whether a reference (the last compiled output) was available; the
    /// diff-based findings need one, the lock-based ones do not.
    pub has_reference: bool,
}

impl Default for StatusReport {
    fn default() -> (r: StatusReport)
        ensures
            r.pending_push@.len() == 0,
            r.managed@.len() == 0,
            r.adoptable@.len() == 0,
            r.unmanaged_changes == 0,
            r.locale_renames == 0,
            !r.has_reference,
    {
        StatusReport {
            pending_push: Vec::new(),
            managed: Vec::new(),
            adoptable: Vec::new(),
            unmanaged_changes: 0,
            locale_renames: 0,
            has_reference: false,
        }
    }
}

impl StatusReport {
    /// Anything that needs a decision or an action?
    pub fn needs_attention(&self) -> (r: bool)
        ensures
            r == (self.pending_push@.len() > 0 || self.managed@.len() > 0
                || self.adoptable@.len() > 0),
    {
        !self.pending_push.is_empty() || !self.managed.is_empty() || !self.adoptable.is_empty()
    }
}

// ---------------------------------------------------------------------------
// Lookups over the lockfile and the two documents
// ---------------------------------------------------------------------------

/// A tombstone as `(slug, block type)`.
pub open spec fn tomb_view(t: Tombstone) -> (Seq<char>, Seq<char>) {
    (t.slug@, t.block_type@)
}

/// Object UUID → slug assignments of the locked managed blocks.
pub open spec fn object_slugs(objs: Seq<(Seq<char>, LockedObject)>) -> Seq<(Seq<char>, Seq<char>)> {
    objs.map_values(|p: (Seq<char>, LockedObject)| (p.1.uuid@, p.0))
}

/// Object UUID → slug assignments of the resolved externs.
pub open spec fn extern_slugs(exts: Seq<(Seq<char>, LockedExternal)>) -> Seq<
    (Seq<char>, Seq<char>),
> {
    exts.map_values(|p: (Seq<char>, LockedExternal)| (p.1.uuid@, p.0))
}

/// Port UUID → `(slug, key)` assignments of one locked block.
pub open spec fn block_ports(slug: Seq<char>, ports: Seq<(Seq<char>, String)>) -> Seq<
    (Seq<char>, (Seq<char>, Seq<char>)),
> {
    ports.map_values(|q: (Seq<char>, String)| (q.1@, (slug, q.0)))
}

/// Port UUID → `(slug, key)` assignments of all locked blocks.
pub open spec fn managed_ports(objs: Seq<(Seq<char>, LockedObject)>) -> Seq<
    (Seq<char>, (Seq<char>, Seq<char>)),
>
    decreases objs.len(),
{
    if objs.len() == 0 {
        seq![]
    } else {
        managed_ports(objs.drop_last()) + block_ports(objs.last().0, objs.last().1.ports@)
    }
}

/// Object UUID → summary assignments, the reference's first, then the
/// config's (which win).
pub open spec fn owner_objects(
    refo: Seq<(SObject, SElement)>,
    cfgo: Seq<(SObject, SElement)>,
) -> Seq<(Seq<char>, SObject)> {
    (refo + cfgo).map_values(|p: (SObject, SElement)| (p.0.uuid, p.0))
}

/// Whether an object with UUID `u` is in the list.
pub open spec fn has_uuid(objs: Seq<(SObject, SElement)>, u: Seq<char>) -> bool {
    exists|i: int| 0 <= i < objs.len() && (#[trigger] objs[i]).0.uuid == u
}

/// Whether the compiler drew the wire `from → to` onto an extern.
pub open spec fn compiler_drawn(lock: Lockfile, from: Seq<char>, to: Seq<char>) -> bool {
    exists|i: int|
        0 <= i < lock.extern_wires@.len() && (#[trigger] lock.extern_wires@[i]).from@ == from
            && lock.extern_wires@[i].to@ == to
}

/// Whether the compiler owns a `Def=` on port `u` (an extern assignment,
/// current or just removed).
pub open spec fn set_port(lock: Lockfile, u: Seq<char>) -> bool {
    map_get(lock.set_originals@, u) is Some || map_get(lock.removed_sets@, u) is Some
}

/// Assignments appended to others: the later ones win.
pub proof fn lemma_last_assigned_concat<V>(a: Seq<(Seq<char>, V)>, b: Seq<(Seq<char>, V)>, k: Seq<char>)
    ensures
        last_assigned(a + b, k) == (match last_assigned(b, k) {
            Some(v) => Some(v),
            None => last_assigned(a, k),
        }),
    decreases b.len(),
{
    if b.len() == 0 {
        assert(a + b =~= a);
    } else {
        assert((a + b).drop_last() =~= a + b.drop_last());
        lemma_last_assigned_concat(a, b.drop_last(), k);
    }
}

/// The slug of the locked managed block with object UUID `u`.
fn object_slug<'a>(lock: &'a Lockfile, u: &str) -> (r: Option<&'a String>)
    ensures
        match r {
            Some(s) => last_assigned(object_slugs(lock.objects@), u@) == Some(s@),
            None => last_assigned(object_slugs(lock.objects@), u@) is None,
        },
{
    let ghost s = object_slugs(lock.objects@);
    let mut i = lock.objects.len();
    assert(s.take(i as int) =~= s);
    while i > 0
        invariant
            i <= lock.objects@.len(),
            s == object_slugs(lock.objects@),
            last_assigned(s, u@) == last_assigned(s.take(i as int), u@),
        decreases i,
    {
        proof {
            assert(s.take(i as int).drop_last() =~= s.take(i - 1));
        }
        if str_eq(lock.objects.value_at(i - 1).uuid.as_str(), u) {
            return Some(lock.objects.key_at(i - 1));
        }
        i = i - 1;
    }
    None
}

/// The slug of the resolved extern with object UUID `u`.
fn extern_slug<'a>(lock: &'a Lockfile, u: &str) -> (r: Option<&'a String>)
    ensures
        match r {
            Some(s) => last_assigned(extern_slugs(lock.externals@), u@) == Some(s@),
            None => last_assigned(extern_slugs(lock.externals@), u@) is None,
        },
{
    let ghost s = extern_slugs(lock.externals@);
    let mut i = lock.externals.len();
    assert(s.take(i as int) =~= s);
    while i > 0
        invariant
            i <= lock.externals@.len(),
            s == extern_slugs(lock.externals@),
            last_assigned(s, u@) == last_assigned(s.take(i as int), u@),
        decreases i,
    {
        proof {
            assert(s.take(i as int).drop_last() =~= s.take(i - 1));
        }
        if str_eq(lock.externals.value_at(i - 1).uuid.as_str(), u) {
            return Some(lock.externals.key_at(i - 1));
        }
        i = i - 1;
    }
    None
}

/// The locked `(slug, key)` of port UUID `u`.
fn managed_port<'a>(lock: &'a Lockfile, u: &str) -> (r: Option<(&'a String, &'a String)>)
    ensures
        match r {
            Some(p) => last_assigned(managed_ports(lock.objects@), u@) == Some((p.0@, p.1@)),
            None => last_assigned(managed_ports(lock.objects@), u@) is None,
        },
{
    let ghost objs = lock.objects@;
    let mut i = lock.objects.len();
    assert(objs.take(i as int) =~= objs);
    while i > 0
        invariant
            i <= objs.len(),
            objs == lock.objects@,
            last_assigned(managed_ports(objs), u@) == last_assigned(
                managed_ports(objs.take(i as int)),
                u@,
            ),
        decreases i,
    {
        let slug = lock.objects.key_at(i - 1);
        let ports = &lock.objects.value_at(i - 1).ports;
        let ghost bp = block_ports(slug@, ports@);
        proof {
            assert(objs.take(i as int).drop_last() =~= objs.take(i - 1));
            assert(managed_ports(objs.take(i as int)) == managed_ports(objs.take(i - 1)) + bp);
            lemma_last_assigned_concat(managed_ports(objs.take(i - 1)), bp, u@);
        }
        let mut j = ports.len();
        assert(bp.take(j as int) =~= bp);
        while j > 0
            invariant
                j <= ports@.len(),
                0 < i <= objs.len(),
                objs == lock.objects@,
                bp == block_ports(slug@, ports@),
                last_assigned(managed_ports(objs), u@) == (match last_assigned(bp, u@) {
                    Some(v) => Some(v),
                    None => last_assigned(managed_ports(objs.take(i - 1)), u@),
                }),
                last_assigned(bp, u@) == last_assigned(bp.take(j as int), u@),
            decreases j,
        {
            proof {
                assert(bp.take(j as int).drop_last() =~= bp.take(j - 1));
            }
            if str_eq(ports.value_at(j - 1).as_str(), u) {
                return Some((slug, ports.key_at(j - 1)));
            }
            j = j - 1;
        }
        i = i - 1;
    }
    None
}

/// Object UUID → summary assignments.
pub open spec fn summaries_assign(objs: Seq<SObject>) -> Seq<(Seq<char>, SObject)> {
    objs.map_values(|o: SObject| (o.uuid, o))
}

/// The summaries of a document's objects.
pub open spec fn summaries(objs: Seq<(SObject, SElement)>) -> Seq<SObject> {
    objs.map_values(|p: (SObject, SElement)| p.0)
}

/// The object a UUID names, the config's copy winning over the reference's.
pub open spec fn owner_of(
    refo: Seq<(SObject, SElement)>,
    cfgo: Seq<(SObject, SElement)>,
    u: Seq<char>,
) -> Option<SObject> {
    last_assigned(summaries_assign(summaries(refo) + summaries(cfgo)), u)
}

/// The owner `(object UUID, key)` of a port, the config's winning.
pub open spec fn port_owner_of(
    refo: Seq<(SObject, SElement)>,
    cfgo: Seq<(SObject, SElement)>,
    p: Seq<char>,
) -> Option<(Seq<char>, Seq<char>)> {
    last_assigned(owner_assignments(refo) + owner_assignments(cfgo), p)
}

/// How a port is named in a finding: `slug.Key` for locked blocks and
/// externs, `Type "Title".Key` for other objects, `port <uuid>` when
/// nothing is known of it.
pub open spec fn port_label_spec(
    lock: Lockfile,
    refo: Seq<(SObject, SElement)>,
    cfgo: Seq<(SObject, SElement)>,
    p: Seq<char>,
) -> Seq<char> {
    match last_assigned(managed_ports(lock.objects@), p) {
        Some(sk) => sk.0 + "."@ + sk.1,
        None => match port_owner_of(refo, cfgo, p) {
            None => "port "@ + p,
            Some(ok) => match last_assigned(extern_slugs(lock.externals@), ok.0) {
                Some(s) => s + "."@ + ok.1,
                None => match owner_of(refo, cfgo, ok.0) {
                    Some(o) => match o.title {
                        Some(t) => o.block_type + " \""@ + t + "\"."@ + ok.1,
                        None => o.block_type + "."@ + ok.1,
                    },
                    None => "port "@ + p,
                },
            },
        },
    }
}

/// The last summary with UUID `u`.
fn last_summary(v: &Vec<ObjectSummary>, u: &str) -> (r: Option<usize>)
    ensures
        match r {
            Some(i) => i < v@.len() && last_assigned(
                summaries_assign(v@.map_values(|o: ObjectSummary| o@)),
                u@,
            ) == Some(v@[i as int]@),
            None => last_assigned(summaries_assign(v@.map_values(|o: ObjectSummary| o@)), u@) is None,
        },
{
    let ghost s = summaries_assign(v@.map_values(|o: ObjectSummary| o@));
    let mut i = v.len();
    assert(s.take(i as int) =~= s);
    while i > 0
        invariant
            i <= v@.len(),
            s == summaries_assign(v@.map_values(|o: ObjectSummary| o@)),
            last_assigned(s, u@) == last_assigned(s.take(i as int), u@),
        decreases i,
    {
        proof {
            assert(s.take(i as int).drop_last() =~= s.take(i - 1));
        }
        if str_eq(v[i - 1].uuid.as_str(), u) {
            return Some(i - 1);
        }
        i = i - 1;
    }
    None
}

/// `"value"`, or `(absent)`.
pub open spec fn fmt_val(v: Option<Seq<char>>) -> Seq<char> {
    match v {
        Some(t) => "\""@ + t + "\""@,
        None => "(absent)"@,
    }
}

fn push_val(out: &mut String, v: &Option<String>)
    ensures
        final(out)@ == old(out)@ + fmt_val(opt_view(*v)),
{
    let ghost o = out@;
    match v {
        Some(t) => {
            push_str(out, "\"");
            push_str(out, t.as_str());
            push_str(out, "\"");
        },
        None => push_str(out, "(absent)"),
    }
    assert(out@ =~= o + fmt_val(opt_view(*v)));
}

/// What triage reads besides the diff: the lock, both documents' objects
/// and their port indexes.
struct Scope<'a> {
    lock: &'a Lockfile,
    ref_objs: Vec<ObjectSummary>,
    cfg_objs: Vec<ObjectSummary>,
    ref_owner: StrMap<(String, String)>,
    cfg_owner: StrMap<(String, String)>,
}

impl<'a> Scope<'a> {
    spec fn models(
        &self,
        lock: Lockfile,
        refo: Seq<(SObject, SElement)>,
        cfgo: Seq<(SObject, SElement)>,
    ) -> bool {
        &&& *self.lock == lock
        &&& self.ref_objs@.map_values(|o: ObjectSummary| o@) == summaries(refo)
        &&& self.cfg_objs@.map_values(|o: ObjectSummary| o@) == summaries(cfgo)
        &&& forall|k: Seq<char>|
            match #[trigger] map_get(self.ref_owner@, k) {
                Some(v) => last_assigned(owner_assignments(refo), k) == Some((v.0@, v.1@)),
                None => last_assigned(owner_assignments(refo), k) is None,
            }
        &&& forall|k: Seq<char>|
            match #[trigger] map_get(self.cfg_owner@, k) {
                Some(v) => last_assigned(owner_assignments(cfgo), k) == Some((v.0@, v.1@)),
                None => last_assigned(owner_assignments(cfgo), k) is None,
            }
    }

    /// The object a UUID names.
    fn owner(&self, u: &str, Ghost(lock): Ghost<Lockfile>, Ghost(refo): Ghost<Seq<(SObject, SElement)>>, Ghost(cfgo): Ghost<Seq<(SObject, SElement)>>) -> (r: Option<&ObjectSummary>)
        requires
            self.models(lock, refo, cfgo),
        ensures
            match r {
                Some(o) => owner_of(refo, cfgo, u@) == Some(o@),
                None => owner_of(refo, cfgo, u@) is None,
            },
    {
        proof {
            assert(summaries_assign(summaries(refo) + summaries(cfgo)) =~= summaries_assign(
                summaries(refo),
            ) + summaries_assign(summaries(cfgo)));
            lemma_last_assigned_concat(
                summaries_assign(summaries(refo)),
                summaries_assign(summaries(cfgo)),
                u@,
            );
        }
        match last_summary(&self.cfg_objs, u) {
            Some(i) => Some(&self.cfg_objs[i]),
            None => match last_summary(&self.ref_objs, u) {
                Some(i) => Some(&self.ref_objs[i]),
                None => None,
            },
        }
    }

    /// The owner of a port.
    fn port_owner(&self, p: &str, Ghost(lock): Ghost<Lockfile>, Ghost(refo): Ghost<Seq<(SObject, SElement)>>, Ghost(cfgo): Ghost<Seq<(SObject, SElement)>>) -> (r: Option<&(String, String)>)
        requires
            self.models(lock, refo, cfgo),
        ensures
            match r {
                Some(v) => port_owner_of(refo, cfgo, p@) == Some((v.0@, v.1@)),
                None => port_owner_of(refo, cfgo, p@) is None,
            },
    {
        proof {
            lemma_last_assigned_concat(owner_assignments(refo), owner_assignments(cfgo), p@);
        }
        let a = self.cfg_owner.get(p);
        proof {
            let _ = map_get(self.cfg_owner@, p@);
            let _ = map_get(self.ref_owner@, p@);
        }
        match a {
            Some(v) => Some(v),
            None => self.ref_owner.get(p),
        }
    }

    /// Appends the label of a port.
    fn push_port_label(&self, out: &mut String, p: &str, Ghost(lock): Ghost<Lockfile>, Ghost(refo): Ghost<Seq<(SObject, SElement)>>, Ghost(cfgo): Ghost<Seq<(SObject, SElement)>>)
        requires
            self.models(lock, refo, cfgo),
        ensures
            final(out)@ == old(out)@ + port_label_spec(lock, refo, cfgo, p@),
    {
        let ghost o = out@;
        if let Some((slug, key)) = managed_port(self.lock, p) {
            push_str(out, slug.as_str());
            push_str(out, ".");
            push_str(out, key.as_str());
        } else {
            match self.port_owner(p, Ghost(lock), Ghost(refo), Ghost(cfgo)) {
                None => {
                    push_str(out, "port ");
                    push_str(out, p);
                },
                Some((owner, key)) => match extern_slug(self.lock, owner.as_str()) {
                    Some(slug) => {
                        push_str(out, slug.as_str());
                        push_str(out, ".");
                        push_str(out, key.as_str());
                    },
                    None => match self.owner(owner.as_str(), Ghost(lock), Ghost(refo), Ghost(cfgo)) {
                        Some(ob) => {
                            push_str(out, ob.block_type.as_str());
                            match &ob.title {
                                Some(t) => {
                                    push_str(out, " \"");
                                    push_str(out, t.as_str());
                                    push_str(out, "\".");
                                },
                                None => push_str(out, "."),
                            }
                            push_str(out, key.as_str());
                        },
                        None => {
                            push_str(out, "port ");
                            push_str(out, p);
                        },
                    },
                },
            }
        }
        assert(out@ =~= o + port_label_spec(lock, refo, cfgo, p@));
    }
}

// ---------------------------------------------------------------------------
// Findings that need no reference document
// ---------------------------------------------------------------------------

pub open spec fn deleted_action(slug: Seq<char>) -> Seq<char> {
    "a recompile re-creates it in place; if the removal is intended, declare `removed "@ + slug
        + "` and recompile"@
}

pub open spec fn extern_gone_action(slug: Seq<char>) -> Seq<char> {
    "the module still references `"@ + slug
        + "` — the next compile fails to resolve it unless another object matches its spec; restore the object in Loxone Config, or remove the extern and its wires from source"@
}

/// Tombstones whose object the config still carries, in UUID order.
pub open spec fn pending_spec(rm: Seq<(Seq<char>, Tombstone)>, cfgo: Seq<(SObject, SElement)>) -> Seq<
    (Seq<char>, Seq<char>),
>
    decreases rm.len(),
{
    if rm.len() == 0 {
        seq![]
    } else {
        pending_spec(rm.drop_last(), cfgo) + if has_uuid(cfgo, rm.last().0) {
            seq![tomb_view(rm.last().1)]
        } else {
            seq![]
        }
    }
}

/// Locked managed blocks the config lacks, in slug order.
pub open spec fn deleted_spec(objs: Seq<(Seq<char>, LockedObject)>, cfgo: Seq<(SObject, SElement)>) -> Seq<
    SChange,
>
    decreases objs.len(),
{
    if objs.len() == 0 {
        seq![]
    } else {
        let (slug, o) = objs.last();
        deleted_spec(objs.drop_last(), cfgo) + if !has_uuid(cfgo, o.uuid@) {
            seq![
                SChange {
                    slug,
                    block_type: o.block_type@,
                    detail: "deleted by another writer"@,
                    action: deleted_action(slug),
                },
            ]
        } else {
            seq![]
        }
    }
}

/// Resolved externs the config lacks, in slug order.
pub open spec fn extern_gone_spec(
    exts: Seq<(Seq<char>, LockedExternal)>,
    cfgo: Seq<(SObject, SElement)>,
) -> Seq<SChange>
    decreases exts.len(),
{
    if exts.len() == 0 {
        seq![]
    } else {
        let (slug, e) = exts.last();
        extern_gone_spec(exts.drop_last(), cfgo) + if !has_uuid(cfgo, e.uuid@) {
            seq![
                SChange {
                    slug,
                    block_type: seq![],
                    detail: "the external object no longer exists"@,
                    action: extern_gone_action(slug),
                },
            ]
        } else {
            seq![]
        }
    }
}

pub open spec fn changes_view(v: Seq<ManagedChange>) -> Seq<SChange> {
    v.map_values(|c: ManagedChange| c@)
}

fn has_object(objs: &Vec<ObjectSummary>, u: &str, Ghost(cfgo): Ghost<Seq<(SObject, SElement)>>) -> (r: bool)
    requires
        objs@.map_values(|o: ObjectSummary| o@) == summaries(cfgo),
    ensures
        r == has_uuid(cfgo, u@),
{
    let mut i: usize = 0;
    assert(objs@.map_values(|o: ObjectSummary| o@).len() == summaries(cfgo).len());
    while i < objs.len()
        invariant
            0 <= i <= objs@.len(),
            objs@.len() == cfgo.len(),
            objs@.map_values(|o: ObjectSummary| o@) == summaries(cfgo),
            forall|j: int| 0 <= j < i ==> (#[trigger] cfgo[j]).0.uuid != u@,
        decreases objs@.len() - i,
    {
        proof {
            assert(objs@.map_values(|o: ObjectSummary| o@)[i as int] == summaries(cfgo)[i as int]);
            assert(cfgo[i as int].0 == objs@[i as int]@);
        }
        if str_eq(objs[i].uuid.as_str(), u) {
            return true;
        }
        i = i + 1;
    }
    proof {
        assert(summaries(cfgo).len() == cfgo.len());
    }
    false
}

fn copy_tomb(t: &Tombstone) -> (r: Tombstone)
    ensures
        tomb_view(r) == tomb_view(*t),
{
    Tombstone { slug: string_of(t.slug.as_str()), block_type: string_of(t.block_type.as_str()) }
}

fn pending_push(lock: &Lockfile, objs: &Vec<ObjectSummary>, Ghost(cfgo): Ghost<Seq<(SObject, SElement)>>) -> (r: Vec<Tombstone>)
    requires
        objs@.map_values(|o: ObjectSummary| o@) == summaries(cfgo),
    ensures
        r@.map_values(|t: Tombstone| tomb_view(t)) == pending_spec(lock.removed@, cfgo),
{
    let ghost rm = lock.removed@;
    let mut out: Vec<Tombstone> = Vec::new();
    let mut i: usize = 0;
    while i < lock.removed.len()
        invariant
            0 <= i <= rm.len(),
            rm == lock.removed@,
            objs@.map_values(|o: ObjectSummary| o@) == summaries(cfgo),
            out@.map_values(|t: Tombstone| tomb_view(t)) == pending_spec(rm.take(i as int), cfgo),
        decreases rm.len() - i,
    {
        proof {
            assert(rm.take(i + 1).drop_last() =~= rm.take(i as int));
        }
        let ghost before = out@.map_values(|t: Tombstone| tomb_view(t));
        if has_object(objs, lock.removed.key_at(i).as_str(), Ghost(cfgo)) {
            out.push(copy_tomb(lock.removed.value_at(i)));
            assert(out@.map_values(|t: Tombstone| tomb_view(t)) =~= before.push(
                tomb_view(rm[i as int].1),
            ));
        } else {
            assert(before + seq![] =~= before);
        }
        i = i + 1;
    }
    assert(rm.take(rm.len() as int) =~= rm);
    out
}

fn deleted_objects(
    lock: &Lockfile,
    objs: &Vec<ObjectSummary>,
    out: &mut Vec<ManagedChange>,
    Ghost(cfgo): Ghost<Seq<(SObject, SElement)>>,
)
    requires
        objs@.map_values(|o: ObjectSummary| o@) == summaries(cfgo),
    ensures
        changes_view(final(out)@) == changes_view(old(out)@) + deleted_spec(lock.objects@, cfgo),
{
    let ghost lo = lock.objects@;
    let ghost start = changes_view(out@);
    let mut i: usize = 0;
    assert(start + deleted_spec(lo.take(0), cfgo) =~= start);
    while i < lock.objects.len()
        invariant
            0 <= i <= lo.len(),
            lo == lock.objects@,
            objs@.map_values(|o: ObjectSummary| o@) == summaries(cfgo),
            changes_view(out@) == start + deleted_spec(lo.take(i as int), cfgo),
        decreases lo.len() - i,
    {
        proof {
            assert(lo.take(i + 1).drop_last() =~= lo.take(i as int));
        }
        let ghost before = changes_view(out@);
        let slug = lock.objects.key_at(i);
        let o = lock.objects.value_at(i);
        if !has_object(objs, o.uuid.as_str(), Ghost(cfgo)) {
            let mut action = String::new();
            push_str(&mut action, "a recompile re-creates it in place; if the removal is intended, declare `removed ");
            push_str(&mut action, slug.as_str());
            push_str(&mut action, "` and recompile");
            assert(action@ =~= deleted_action(slug@));
            out.push(ManagedChange {
                slug: string_of(slug.as_str()),
                block_type: string_of(o.block_type.as_str()),
                detail: string_of("deleted by another writer"),
                action,
            });
            assert(changes_view(out@) =~= before.push(changes_view(out@).last()));
        } else {
            assert(before + seq![] =~= before);
        }
        proof {
            assert(changes_view(out@) =~= start + deleted_spec(lo.take(i + 1), cfgo));
        }
        i = i + 1;
    }
    assert(lo.take(lo.len() as int) =~= lo);
}

fn gone_externs(
    lock: &Lockfile,
    objs: &Vec<ObjectSummary>,
    out: &mut Vec<ManagedChange>,
    Ghost(cfgo): Ghost<Seq<(SObject, SElement)>>,
)
    requires
        objs@.map_values(|o: ObjectSummary| o@) == summaries(cfgo),
    ensures
        changes_view(final(out)@) == changes_view(old(out)@) + extern_gone_spec(
            lock.externals@,
            cfgo,
        ),
{
    let ghost lo = lock.externals@;
    let ghost start = changes_view(out@);
    let mut i: usize = 0;
    assert(start + extern_gone_spec(lo.take(0), cfgo) =~= start);
    while i < lock.externals.len()
        invariant
            0 <= i <= lo.len(),
            lo == lock.externals@,
            objs@.map_values(|o: ObjectSummary| o@) == summaries(cfgo),
            changes_view(out@) == start + extern_gone_spec(lo.take(i as int), cfgo),
        decreases lo.len() - i,
    {
        proof {
            assert(lo.take(i + 1).drop_last() =~= lo.take(i as int));
        }
        let ghost before = changes_view(out@);
        let slug = lock.externals.key_at(i);
        let e = lock.externals.value_at(i);
        if !has_object(objs, e.uuid.as_str(), Ghost(cfgo)) {
            let mut action = String::new();
            push_str(&mut action, "the module still references `");
            push_str(&mut action, slug.as_str());
            push_str(&mut action, "` — the next compile fails to resolve it unless another object matches its spec; restore the object in Loxone Config, or remove the extern and its wires from source");
            assert(action@ =~= extern_gone_action(slug@));
            let bt = String::new();
            assert(bt@ =~= Seq::<char>::empty());
            out.push(ManagedChange {
                slug: string_of(slug.as_str()),
                block_type: bt,
                detail: string_of("the external object no longer exists"),
                action,
            });
            assert(changes_view(out@) =~= before.push(changes_view(out@).last()));
        } else {
            assert(before + seq![] =~= before);
        }
        proof {
            assert(changes_view(out@) =~= start + extern_gone_spec(lo.take(i + 1), cfgo));
        }
        i = i + 1;
    }
    assert(lo.take(lo.len() as int) =~= lo);
}

// ---------------------------------------------------------------------------
// Findings from the diff against the reference
// ---------------------------------------------------------------------------

/// `min(x, usize::MAX)`: counts saturate rather than wrap.
pub open spec fn sat(x: nat) -> nat {
    if x <= usize::MAX {
        x
    } else {
        usize::MAX as nat
    }
}

/// `used` with each of `keys` recorded.
pub open spec fn insert_keys(used: Seq<(Seq<char>, bool)>, keys: Seq<Seq<char>>) -> Seq<
    (Seq<char>, bool),
>
    decreases keys.len(),
{
    if keys.len() == 0 {
        used
    } else {
        map_insert(insert_keys(used, keys.drop_last()), keys.last(), true)
    }
}

/// The names a suggested slug must avoid at first: every slug of the lock.
pub open spec fn used_init(lock: Lockfile) -> Seq<(Seq<char>, bool)> {
    insert_keys(
        insert_keys(seq![], crate::strmap::map_keys(lock.objects@)),
        crate::strmap::map_keys(lock.externals@),
    )
}

/// The name a new block's slug is derived from.
pub open spec fn name_of(o: SObject) -> Seq<char> {
    match o.title {
        Some(t) => t,
        None => match o.iname {
            Some(i) => i,
            None => o.block_type,
        },
    }
}

/// A block type the compiler manages: a built-in table, but not a ref.
pub open spec fn adoptable_spec(lock: Lockfile, o: SObject) -> bool {
    &&& builtin_spec(o.block_type) is Some
    &&& o.block_type != "InputRef"@
    &&& o.block_type != "OutputRef"@
    &&& last_assigned(object_slugs(lock.objects@), o.uuid) is None
    &&& last_assigned(extern_slugs(lock.externals@), o.uuid) is None
}

/// Over the added objects: the adopt suggestions, the count of unmanaged
/// additions, and the names taken so far.
pub open spec fn adopt_spec(lock: Lockfile, added: Seq<SObject>) -> (
    Seq<SAdoptable>,
    nat,
    Seq<(Seq<char>, bool)>,
)
    decreases added.len(),
{
    if added.len() == 0 {
        (seq![], 0, used_init(lock))
    } else {
        let (a, n, used) = adopt_spec(lock, added.drop_last());
        let o = added.last();
        if map_get(lock.removed@, o.uuid) is Some {
            (a, n, used)
        } else if !adoptable_spec(lock, o) {
            (a, n + 1, used)
        } else {
            let slug = dedupe_spec(slugify_spec(name_of(o)), used);
            (
                a.push(SAdoptable { uuid: o.uuid, block_type: o.block_type, title: o.title, slug }),
                n,
                map_insert(used, slug, true),
            )
        }
    }
}

fn opt_copy(o: &Option<String>) -> (r: Option<String>)
    ensures
        opt_view(r) == opt_view(*o),
{
    match o {
        Some(t) => Some(string_of(t.as_str())),
        None => None,
    }
}

fn lock_names(lock: &Lockfile) -> (r: StrMap<bool>)
    ensures
        r@ == used_init(*lock),
{
    let mut used: StrMap<bool> = StrMap::new();
    let ghost ko = crate::strmap::map_keys(lock.objects@);
    let ghost ke = crate::strmap::map_keys(lock.externals@);
    let mut i: usize = 0;
    while i < lock.objects.len()
        invariant
            0 <= i <= ko.len(),
            ko == crate::strmap::map_keys(lock.objects@),
            used@ == insert_keys(seq![], ko.take(i as int)),
        decreases ko.len() - i,
    {
        proof {
            assert(ko.take(i + 1).drop_last() =~= ko.take(i as int));
        }
        used.insert(string_of(lock.objects.key_at(i).as_str()), true);
        i = i + 1;
    }
    assert(ko.take(ko.len() as int) =~= ko);
    let ghost base = used@;
    let mut j: usize = 0;
    while j < lock.externals.len()
        invariant
            0 <= j <= ke.len(),
            ke == crate::strmap::map_keys(lock.externals@),
            base == insert_keys(seq![], ko),
            used@ == insert_keys(base, ke.take(j as int)),
        decreases ke.len() - j,
    {
        proof {
            assert(ke.take(j + 1).drop_last() =~= ke.take(j as int));
        }
        used.insert(string_of(lock.externals.key_at(j).as_str()), true);
        j = j + 1;
    }
    assert(ke.take(ke.len() as int) =~= ke);
    used
}

fn adopt_section(lock: &Lockfile, added: &Vec<ObjectSummary>) -> (r: (Vec<Adoptable>, usize))
    ensures
        r.0@.map_values(|a: Adoptable| a@) == adopt_spec(*lock, added@.map_values(|o: ObjectSummary| o@)).0,
        r.1 as nat == sat(adopt_spec(*lock, added@.map_values(|o: ObjectSummary| o@)).1),
{
    let ghost av = added@.map_values(|o: ObjectSummary| o@);
    let mut used = lock_names(lock);
    let mut out: Vec<Adoptable> = Vec::new();
    let mut n: usize = 0;
    let mut i: usize = 0;
    assert(av.take(0) =~= Seq::<SObject>::empty());
    while i < added.len()
        invariant
            0 <= i <= av.len(),
            av == added@.map_values(|o: ObjectSummary| o@),
            out@.map_values(|a: Adoptable| a@) == adopt_spec(*lock, av.take(i as int)).0,
            n as nat == sat(adopt_spec(*lock, av.take(i as int)).1),
            used@ == adopt_spec(*lock, av.take(i as int)).2,
        decreases av.len() - i,
    {
        proof {
            assert(av.take(i + 1).drop_last() =~= av.take(i as int));
            assert(av.take(i + 1).last() == added@[i as int]@);
        }
        let o = &added[i];
        if lock.removed.contains_key(o.uuid.as_str()) {
        } else {
            let t = o.block_type.as_str();
            let adoptable = builtin(t).is_some() && !str_eq(t, "InputRef") && !str_eq(t, "OutputRef")
                && object_slug(lock, o.uuid.as_str()).is_none()
                && extern_slug(lock, o.uuid.as_str()).is_none();
            if !adoptable {
                if n < usize::MAX {
                    n = n + 1;
                }
            } else {
                let name = match &o.title {
                    Some(x) => x.as_str(),
                    None => match &o.iname {
                        Some(x) => x.as_str(),
                        None => t,
                    },
                };
                let base = slugify(name);
                let slug = dedupe(&mut used, base.as_str());
                let ghost before = out@.map_values(|a: Adoptable| a@);
                out.push(
                    Adoptable {
                        uuid: string_of(o.uuid.as_str()),
                        block_type: string_of(t),
                        title: opt_copy(&o.title),
                        slug,
                    },
                );
                assert(out@.map_values(|a: Adoptable| a@) =~= before.push(out@.last()@));
            }
        }
        i = i + 1;
    }
    assert(av.take(av.len() as int) =~= av);
    (out, n)
}

/// Removed objects outside managed identity.
pub open spec fn removed_count(lock: Lockfile, removed: Seq<SObject>) -> nat
    decreases removed.len(),
{
    if removed.len() == 0 {
        0
    } else {
        let u = removed.last().uuid;
        removed_count(lock, removed.drop_last()) + if last_assigned(
            object_slugs(lock.objects@),
            u,
        ) is None && last_assigned(extern_slugs(lock.externals@), u) is None {
            1nat
        } else {
            0nat
        }
    }
}

fn removed_section(lock: &Lockfile, removed: &Vec<ObjectSummary>) -> (r: usize)
    ensures
        r as nat == sat(removed_count(*lock, removed@.map_values(|o: ObjectSummary| o@))),
{
    let ghost rv = removed@.map_values(|o: ObjectSummary| o@);
    let mut n: usize = 0;
    let mut i: usize = 0;
    while i < removed.len()
        invariant
            0 <= i <= rv.len(),
            rv == removed@.map_values(|o: ObjectSummary| o@),
            n as nat == sat(removed_count(*lock, rv.take(i as int))),
        decreases rv.len() - i,
    {
        proof {
            assert(rv.take(i + 1).drop_last() =~= rv.take(i as int));
            assert(rv.take(i + 1).last() == removed@[i as int]@);
        }
        let u = removed[i].uuid.as_str();
        if object_slug(lock, u).is_none() && extern_slug(lock, u).is_none() {
            if n < usize::MAX {
                n = n + 1;
            }
        }
        i = i + 1;
    }
    assert(rv.take(rv.len() as int) =~= rv);
    n
}

pub open spec fn retitle_detail(from: Option<Seq<char>>, to: Option<Seq<char>>) -> Seq<char> {
    "retitled "@ + fmt_val(from) + " -> "@ + fmt_val(to)
}

pub open spec fn retitle_action(from: Option<Seq<char>>) -> Seq<char> {
    "a recompile restores "@ + fmt_val(from)
        + "; to keep the new title, update the block's label in source"@
}

pub open spec fn extern_retitle_action(slug: Seq<char>) -> Seq<char> {
    "the lock's uuid pin keeps `"@ + slug
        + "` resolving, but its `title:` matcher no longer matches the object — update the matcher (or pin by uuid:) so source stays truthful"@
}

/// Whether the extern `slug` was resolved by its title.
pub open spec fn matched_by_title(lock: Lockfile, slug: Seq<char>) -> bool {
    match map_get(lock.externals@, slug) {
        Some(e) => e.matched_by@ == "title"@,
        None => false,
    }
}

/// Over the renames: the managed findings, the unmanaged count, and the
/// locale renames.
pub open spec fn renamed_findings(lock: Lockfile, rs: Seq<SRename>) -> (Seq<SChange>, nat, nat)
    decreases rs.len(),
{
    if rs.len() == 0 {
        (seq![], 0, 0)
    } else {
        let (m, n, l) = renamed_findings(lock, rs.drop_last());
        let r = rs.last();
        if r.locale_suspect {
            (m, n, l + 1)
        } else {
            match last_assigned(object_slugs(lock.objects@), r.uuid) {
                Some(slug) => (
                    m.push(
                        SChange {
                            slug,
                            block_type: r.block_type,
                            detail: retitle_detail(r.from, r.to),
                            action: retitle_action(r.from),
                        },
                    ),
                    n,
                    l,
                ),
                None => match last_assigned(extern_slugs(lock.externals@), r.uuid) {
                    Some(slug) => if matched_by_title(lock, slug) {
                        (
                            m.push(
                                SChange {
                                    slug,
                                    block_type: r.block_type,
                                    detail: retitle_detail(r.from, r.to),
                                    action: extern_retitle_action(slug),
                                },
                            ),
                            n,
                            l,
                        )
                    } else {
                        (m, n + 1, l)
                    },
                    None => (m, n + 1, l),
                },
            }
        }
    }
}

fn retitle_detail_exec(from: &Option<String>, to: &Option<String>) -> (r: String)
    ensures
        r@ == retitle_detail(opt_view(*from), opt_view(*to)),
{
    let mut d = String::new();
    push_str(&mut d, "retitled ");
    push_val(&mut d, from);
    push_str(&mut d, " -> ");
    push_val(&mut d, to);
    assert(d@ =~= retitle_detail(opt_view(*from), opt_view(*to)));
    d
}

fn renamed_section(lock: &Lockfile, rs: &Vec<crate::diff::Rename>, out: &mut Vec<ManagedChange>) -> (r: (usize, usize))
    ensures
        changes_view(final(out)@) == changes_view(old(out)@) + renamed_findings(
            *lock,
            rs@.map_values(|x: crate::diff::Rename| x@),
        ).0,
        r.0 as nat == sat(renamed_findings(*lock, rs@.map_values(|x: crate::diff::Rename| x@)).1),
        r.1 as nat == renamed_findings(*lock, rs@.map_values(|x: crate::diff::Rename| x@)).2,
{
    let ghost rv = rs@.map_values(|x: crate::diff::Rename| x@);
    let ghost start = changes_view(out@);
    let mut n: usize = 0;
    let mut l: usize = 0;
    let mut i: usize = 0;
    assert(start + renamed_findings(*lock, rv.take(0)).0 =~= start);
    while i < rs.len()
        invariant
            0 <= i <= rv.len(),
            rv == rs@.map_values(|x: crate::diff::Rename| x@),
            changes_view(out@) == start + renamed_findings(*lock, rv.take(i as int)).0,
            n as nat == sat(renamed_findings(*lock, rv.take(i as int)).1),
            l as nat == renamed_findings(*lock, rv.take(i as int)).2,
            l <= i,
        decreases rv.len() - i,
    {
        proof {
            assert(rv.take(i + 1).drop_last() =~= rv.take(i as int));
            assert(rv.take(i + 1).last() == rs@[i as int]@);
        }
        let ghost before = changes_view(out@);
        let r = &rs[i];
        if r.locale_suspect {
            l = l + 1;
        } else if let Some(slug) = object_slug(lock, r.uuid.as_str()) {
            let mut action = String::new();
            push_str(&mut action, "a recompile restores ");
            push_val(&mut action, &r.from);
            push_str(&mut action, "; to keep the new title, update the block's label in source");
            assert(action@ =~= retitle_action(opt_view(r.from)));
            out.push(
                ManagedChange {
                    slug: string_of(slug.as_str()),
                    block_type: string_of(r.block_type.as_str()),
                    detail: retitle_detail_exec(&r.from, &r.to),
                    action,
                },
            );
            assert(changes_view(out@) =~= before.push(changes_view(out@).last()));
        } else if let Some(slug) = extern_slug(lock, r.uuid.as_str()) {
            let by_title = match lock.externals.get(slug.as_str()) {
                Some(e) => str_eq(e.matched_by.as_str(), "title"),
                None => false,
            };
            if by_title {
                let mut action = String::new();
                push_str(&mut action, "the lock's uuid pin keeps `");
                push_str(&mut action, slug.as_str());
                push_str(&mut action, "` resolving, but its `title:` matcher no longer matches the object — update the matcher (or pin by uuid:) so source stays truthful");
                assert(action@ =~= extern_retitle_action(slug@));
                out.push(
                    ManagedChange {
                        slug: string_of(slug.as_str()),
                        block_type: string_of(r.block_type.as_str()),
                        detail: retitle_detail_exec(&r.from, &r.to),
                        action,
                    },
                );
                assert(changes_view(out@) =~= before.push(changes_view(out@).last()));
            } else if n < usize::MAX {
                n = n + 1;
            }
        } else if n < usize::MAX {
            n = n + 1;
        }
        proof {
            assert(changes_view(out@) =~= start + renamed_findings(*lock, rv.take(i + 1)).0);
        }
        i = i + 1;
    }
    assert(rv.take(rv.len() as int) =~= rv);
    (n, l)
}

/// The UUID of the first port keyed `k`.
pub open spec fn first_key_port(ps: Seq<SPort>, k: Seq<char>) -> Option<Seq<char>>
    decreases ps.len(),
{
    if ps.len() == 0 {
        None
    } else if ps[0].key == k {
        Some(ps[0].uuid)
    } else {
        first_key_port(ps.drop_first(), k)
    }
}

/// The config's port a parameter change is on, found through the object
/// the change names.
pub open spec fn param_port(
    cfg_root: SElement,
    refo: Seq<(SObject, SElement)>,
    cfgo: Seq<(SObject, SElement)>,
    p: SParamChange,
) -> Option<Seq<char>> {
    match owner_of(refo, cfgo, p.object_uuid) {
        Some(o) => match element_at_spec(cfg_root, o.path) {
            Some(el) => first_key_port(ports_spec(el), p.port_key),
            None => None,
        },
        None => None,
    }
}

pub open spec fn param_detail(p: SParamChange) -> Seq<char> {
    "param "@ + p.port_key + ": "@ + fmt_val(p.from) + " -> "@ + fmt_val(p.to)
}

pub open spec fn param_action(p: SParamChange) -> Seq<char> {
    "a recompile restores "@ + fmt_val(p.from) + "; to keep the new value, update the module"@
}

pub open spec fn set_detail(slug: Seq<char>, p: SParamChange) -> Seq<char> {
    "set "@ + slug + "."@ + p.port_key + ": "@ + fmt_val(p.from) + " -> "@ + fmt_val(p.to)
}

pub open spec fn set_action(slug: Seq<char>, p: SParamChange) -> Seq<char> {
    "the compiler owns this Def= (a `"@ + slug + "."@ + p.port_key
        + " = …` assignment); a recompile restores "@ + fmt_val(p.from)
        + " — update the assignment to keep "@ + fmt_val(p.to)
}

/// Over the parameter changes: the managed findings and the unmanaged
/// count.
pub open spec fn param_findings(
    lock: Lockfile,
    cfg_root: SElement,
    refo: Seq<(SObject, SElement)>,
    cfgo: Seq<(SObject, SElement)>,
    ps: Seq<SParamChange>,
) -> (Seq<SChange>, nat)
    decreases ps.len(),
{
    if ps.len() == 0 {
        (seq![], 0)
    } else {
        let (m, n) = param_findings(lock, cfg_root, refo, cfgo, ps.drop_last());
        let p = ps.last();
        match last_assigned(object_slugs(lock.objects@), p.object_uuid) {
            Some(slug) => (
                m.push(
                    SChange {
                        slug,
                        block_type: p.block_type,
                        detail: param_detail(p),
                        action: param_action(p),
                    },
                ),
                n,
            ),
            None => match (
                param_port(cfg_root, refo, cfgo, p),
                last_assigned(extern_slugs(lock.externals@), p.object_uuid),
            ) {
                (Some(u), Some(slug)) => if set_port(lock, u) {
                    (
                        m.push(
                            SChange {
                                slug,
                                block_type: p.block_type,
                                detail: set_detail(slug, p),
                                action: set_action(slug, p),
                            },
                        ),
                        n,
                    )
                } else {
                    (m, n + 1)
                },
                _ => (m, n + 1),
            },
        }
    }
}

fn first_key_port_exec(ps: &Vec<crate::doc::PortView>, k: &str) -> (r: Option<String>)
    ensures
        opt_view(r) == first_key_port(ps@.map_values(|q: crate::doc::PortView| q@), k@),
{
    let ghost pv = ps@.map_values(|q: crate::doc::PortView| q@);
    let mut i: usize = 0;
    assert(pv.subrange(0, pv.len() as int) =~= pv);
    while i < ps.len()
        invariant
            0 <= i <= pv.len(),
            pv == ps@.map_values(|q: crate::doc::PortView| q@),
            first_key_port(pv, k@) == first_key_port(pv.subrange(i as int, pv.len() as int), k@),
        decreases pv.len() - i,
    {
        proof {
            assert(pv.subrange(i as int, pv.len() as int)[0] == ps@[i as int]@);
            assert(pv.subrange(i as int, pv.len() as int).drop_first() =~= pv.subrange(
                i + 1,
                pv.len() as int,
            ));
        }
        if str_eq(ps[i].key.as_str(), k) {
            return Some(string_of(ps[i].uuid.as_str()));
        }
        i = i + 1;
    }
    None
}

impl<'a> Scope<'a> {
    fn param_port_exec(&self, cfg: &LoxoneDoc, p: &crate::diff::ParamChange, Ghost(lock): Ghost<Lockfile>, Ghost(refo): Ghost<Seq<(SObject, SElement)>>, Ghost(cfgo): Ghost<Seq<(SObject, SElement)>>) -> (r: Option<String>)
        requires
            self.models(lock, refo, cfgo),
        ensures
            opt_view(r) == param_port(cfg@.root, refo, cfgo, p@),
    {
        match self.owner(p.object_uuid.as_str(), Ghost(lock), Ghost(refo), Ghost(cfgo)) {
            Some(o) => match cfg.element_at(o.path.as_slice()) {
                Some(el) => {
                    let ps = ports(el);
                    first_key_port_exec(&ps, p.port_key.as_str())
                },
                None => None,
            },
            None => None,
        }
    }

    fn param_section(&self, cfg: &LoxoneDoc, ps: &Vec<crate::diff::ParamChange>, out: &mut Vec<ManagedChange>, Ghost(lock): Ghost<Lockfile>, Ghost(refo): Ghost<Seq<(SObject, SElement)>>, Ghost(cfgo): Ghost<Seq<(SObject, SElement)>>) -> (r: usize)
        requires
            self.models(lock, refo, cfgo),
        ensures
            changes_view(final(out)@) == changes_view(old(out)@) + param_findings(
                lock,
                cfg@.root,
                refo,
                cfgo,
                ps@.map_values(|x: crate::diff::ParamChange| x@),
            ).0,
            r as nat == sat(
                param_findings(
                    lock,
                    cfg@.root,
                    refo,
                    cfgo,
                    ps@.map_values(|x: crate::diff::ParamChange| x@),
                ).1,
            ),
    {
        let ghost pv = ps@.map_values(|x: crate::diff::ParamChange| x@);
        let ghost root = cfg@.root;
        let ghost start = changes_view(out@);
        let mut n: usize = 0;
        let mut i: usize = 0;
        assert(start + param_findings(lock, root, refo, cfgo, pv.take(0)).0 =~= start);
        while i < ps.len()
            invariant
                0 <= i <= pv.len(),
                self.models(lock, refo, cfgo),
                root == cfg@.root,
                pv == ps@.map_values(|x: crate::diff::ParamChange| x@),
                changes_view(out@) == start + param_findings(
                    lock,
                    root,
                    refo,
                    cfgo,
                    pv.take(i as int),
                ).0,
                n as nat == sat(param_findings(lock, root, refo, cfgo, pv.take(i as int)).1),
            decreases pv.len() - i,
        {
            proof {
                assert(pv.take(i + 1).drop_last() =~= pv.take(i as int));
                assert(pv.take(i + 1).last() == ps@[i as int]@);
            }
            let ghost before = changes_view(out@);
            let p = &ps[i];
            if let Some(slug) = object_slug(self.lock, p.object_uuid.as_str()) {
                let mut detail = String::new();
                push_str(&mut detail, "param ");
                push_str(&mut detail, p.port_key.as_str());
                push_str(&mut detail, ": ");
                push_val(&mut detail, &p.from);
                push_str(&mut detail, " -> ");
                push_val(&mut detail, &p.to);
                assert(detail@ =~= param_detail(p@));
                let mut action = String::new();
                push_str(&mut action, "a recompile restores ");
                push_val(&mut action, &p.from);
                push_str(&mut action, "; to keep the new value, update the module");
                assert(action@ =~= param_action(p@));
                out.push(
                    ManagedChange {
                        slug: string_of(slug.as_str()),
                        block_type: string_of(p.block_type.as_str()),
                        detail,
                        action,
                    },
                );
                assert(changes_view(out@) =~= before.push(changes_view(out@).last()));
            } else {
                let pu = self.param_port_exec(cfg, p, Ghost(lock), Ghost(refo), Ghost(cfgo));
                let es = extern_slug(self.lock, p.object_uuid.as_str());
                let mut pushed = false;
                if let (Some(u), Some(slug)) = (&pu, es) {
                    let owned = self.lock.set_originals.contains_key(u.as_str())
                        || self.lock.removed_sets.contains_key(u.as_str());
                    if owned {
                        let mut detail = String::new();
                        push_str(&mut detail, "set ");
                        push_str(&mut detail, slug.as_str());
                        push_str(&mut detail, ".");
                        push_str(&mut detail, p.port_key.as_str());
                        push_str(&mut detail, ": ");
                        push_val(&mut detail, &p.from);
                        push_str(&mut detail, " -> ");
                        push_val(&mut detail, &p.to);
                        assert(detail@ =~= set_detail(slug@, p@));
                        let mut action = String::new();
                        push_str(&mut action, "the compiler owns this Def= (a `");
                        push_str(&mut action, slug.as_str());
                        push_str(&mut action, ".");
                        push_str(&mut action, p.port_key.as_str());
                        push_str(&mut action, " = …` assignment); a recompile restores ");
                        push_val(&mut action, &p.from);
                        push_str(&mut action, " — update the assignment to keep ");
                        push_val(&mut action, &p.to);
                        assert(action@ =~= set_action(slug@, p@));
                        out.push(
                            ManagedChange {
                                slug: string_of(slug.as_str()),
                                block_type: string_of(p.block_type.as_str()),
                                detail,
                                action,
                            },
                        );
                        assert(changes_view(out@) =~= before.push(changes_view(out@).last()));
                        pushed = true;
                    }
                }
                if !pushed && n < usize::MAX {
                    n = n + 1;
                }
            }
            proof {
                assert(changes_view(out@) =~= start + param_findings(
                    lock,
                    root,
                    refo,
                    cfgo,
                    pv.take(i + 1),
                ).0);
            }
            i = i + 1;
        }
        assert(pv.take(pv.len() as int) =~= pv);
        n
    }
}

/// The block type of a locked managed block.
pub open spec fn locked_type(lock: Lockfile, slug: Seq<char>) -> Seq<char> {
    match map_get(lock.objects@, slug) {
        Some(o) => o.block_type@,
        None => seq![],
    }
}

pub open spec fn new_wire_detail(label: Seq<char>, slug: Seq<char>, key: Seq<char>) -> Seq<char> {
    "new wire "@ + label + " -> "@ + slug + "."@ + key
}

pub open spec fn new_wire_action(label: Seq<char>, slug: Seq<char>, key: Seq<char>) -> Seq<char> {
    "a recompile removes it (the compiler rebuilds `"@ + slug + "` from source); declare `"@ + key
        + ": "@ + label + "` in `"@ + slug + "`'s argument list to keep it"@
}

pub open spec fn gone_wire_detail(label: Seq<char>, sink: Seq<char>) -> Seq<char> {
    "wire "@ + label + " -> "@ + sink + " deleted"@
}

pub open spec fn gone_wire_action(slug: Seq<char>, key: Seq<char>) -> Seq<char> {
    "a recompile redraws it; remove `"@ + key + ": …` from `"@ + slug
        + "` in source to accept the removal"@
}

pub open spec fn drawn_wire_action(sink: Seq<char>) -> Seq<char> {
    "the compiler drew this wire (a `"@ + sink
        + " <- …` statement); a recompile redraws it — delete the statement to accept the removal"@
}

/// Over the added wires: the managed findings and the unmanaged count.
pub open spec fn wires_added_findings(
    lock: Lockfile,
    refo: Seq<(SObject, SElement)>,
    cfgo: Seq<(SObject, SElement)>,
    ws: Seq<(Seq<char>, Seq<char>)>,
) -> (Seq<SChange>, nat)
    decreases ws.len(),
{
    if ws.len() == 0 {
        (seq![], 0)
    } else {
        let (m, n) = wires_added_findings(lock, refo, cfgo, ws.drop_last());
        let w = ws.last();
        match last_assigned(managed_ports(lock.objects@), w.1) {
            Some(sk) => {
                let label = port_label_spec(lock, refo, cfgo, w.0);
                (
                    m.push(
                        SChange {
                            slug: sk.0,
                            block_type: locked_type(lock, sk.0),
                            detail: new_wire_detail(label, sk.0, sk.1),
                            action: new_wire_action(label, sk.0, sk.1),
                        },
                    ),
                    n,
                )
            },
            None => (m, n + 1),
        }
    }
}

/// Over the removed wires: the managed findings and the unmanaged count.
pub open spec fn wires_removed_findings(
    lock: Lockfile,
    refo: Seq<(SObject, SElement)>,
    cfgo: Seq<(SObject, SElement)>,
    ws: Seq<(Seq<char>, Seq<char>)>,
) -> (Seq<SChange>, nat)
    decreases ws.len(),
{
    if ws.len() == 0 {
        (seq![], 0)
    } else {
        let (m, n) = wires_removed_findings(lock, refo, cfgo, ws.drop_last());
        let w = ws.last();
        let label = port_label_spec(lock, refo, cfgo, w.0);
        match last_assigned(managed_ports(lock.objects@), w.1) {
            Some(sk) => (
                m.push(
                    SChange {
                        slug: sk.0,
                        block_type: locked_type(lock, sk.0),
                        detail: gone_wire_detail(label, sk.0 + "."@ + sk.1),
                        action: gone_wire_action(sk.0, sk.1),
                    },
                ),
                n,
            ),
            None => if compiler_drawn(lock, w.0, w.1) {
                let sink = port_label_spec(lock, refo, cfgo, w.1);
                (
                    m.push(
                        SChange {
                            slug: sink,
                            block_type: seq![],
                            detail: gone_wire_detail(label, sink),
                            action: drawn_wire_action(sink),
                        },
                    ),
                    n,
                )
            } else {
                (m, n + 1)
            },
        }
    }
}

fn locked_type_exec(lock: &Lockfile, slug: &str) -> (r: String)
    ensures
        r@ == locked_type(*lock, slug@),
{
    match lock.objects.get(slug) {
        Some(o) => string_of(o.block_type.as_str()),
        None => {
            let e = String::new();
            assert(e@ =~= Seq::<char>::empty());
            e
        },
    }
}

fn is_compiler_drawn(lock: &Lockfile, from: &str, to: &str) -> (r: bool)
    ensures
        r == compiler_drawn(*lock, from@, to@),
{
    let mut i: usize = 0;
    while i < lock.extern_wires.len()
        invariant
            0 <= i <= lock.extern_wires@.len(),
            forall|j: int|
                0 <= j < i ==> !((#[trigger] lock.extern_wires@[j]).from@ == from@
                    && lock.extern_wires@[j].to@ == to@),
        decreases lock.extern_wires@.len() - i,
    {
        if str_eq(lock.extern_wires[i].from.as_str(), from) && str_eq(
            lock.extern_wires[i].to.as_str(),
            to,
        ) {
            return true;
        }
        i = i + 1;
    }
    false
}

impl<'a> Scope<'a> {
    fn label(&self, p: &str, Ghost(lock): Ghost<Lockfile>, Ghost(refo): Ghost<Seq<(SObject, SElement)>>, Ghost(cfgo): Ghost<Seq<(SObject, SElement)>>) -> (r: String)
        requires
            self.models(lock, refo, cfgo),
        ensures
            r@ == port_label_spec(lock, refo, cfgo, p@),
    {
        let mut s = String::new();
        self.push_port_label(&mut s, p, Ghost(lock), Ghost(refo), Ghost(cfgo));
        assert(s@ =~= port_label_spec(lock, refo, cfgo, p@));
        s
    }

    fn wires_added_section(&self, ws: &Vec<crate::doc::WireView>, out: &mut Vec<ManagedChange>, Ghost(lock): Ghost<Lockfile>, Ghost(refo): Ghost<Seq<(SObject, SElement)>>, Ghost(cfgo): Ghost<Seq<(SObject, SElement)>>) -> (r: usize)
        requires
            self.models(lock, refo, cfgo),
        ensures
            changes_view(final(out)@) == changes_view(old(out)@) + wires_added_findings(
                lock,
                refo,
                cfgo,
                ws@.map_values(|w: crate::doc::WireView| w@),
            ).0,
            r as nat == sat(
                wires_added_findings(lock, refo, cfgo, ws@.map_values(|w: crate::doc::WireView| w@)).1,
            ),
    {
        let ghost wv = ws@.map_values(|w: crate::doc::WireView| w@);
        let ghost start = changes_view(out@);
        let mut n: usize = 0;
        let mut i: usize = 0;
        assert(start + wires_added_findings(lock, refo, cfgo, wv.take(0)).0 =~= start);
        while i < ws.len()
            invariant
                0 <= i <= wv.len(),
                self.models(lock, refo, cfgo),
                wv == ws@.map_values(|w: crate::doc::WireView| w@),
                changes_view(out@) == start + wires_added_findings(lock, refo, cfgo, wv.take(i as int)).0,
                n as nat == sat(wires_added_findings(lock, refo, cfgo, wv.take(i as int)).1),
            decreases wv.len() - i,
        {
            proof {
                assert(wv.take(i + 1).drop_last() =~= wv.take(i as int));
                assert(wv.take(i + 1).last() == ws@[i as int]@);
            }
            let ghost before = changes_view(out@);
            let w = &ws[i];
            if let Some((slug, key)) = managed_port(self.lock, w.to_port.as_str()) {
                let label = self.label(w.from_port.as_str(), Ghost(lock), Ghost(refo), Ghost(cfgo));
                let mut detail = String::new();
                push_str(&mut detail, "new wire ");
                push_str(&mut detail, label.as_str());
                push_str(&mut detail, " -> ");
                push_str(&mut detail, slug.as_str());
                push_str(&mut detail, ".");
                push_str(&mut detail, key.as_str());
                assert(detail@ =~= new_wire_detail(label@, slug@, key@));
                let mut action = String::new();
                push_str(&mut action, "a recompile removes it (the compiler rebuilds `");
                push_str(&mut action, slug.as_str());
                push_str(&mut action, "` from source); declare `");
                push_str(&mut action, key.as_str());
                push_str(&mut action, ": ");
                push_str(&mut action, label.as_str());
                push_str(&mut action, "` in `");
                push_str(&mut action, slug.as_str());
                push_str(&mut action, "`'s argument list to keep it");
                assert(action@ =~= new_wire_action(label@, slug@, key@));
                out.push(
                    ManagedChange {
                        slug: string_of(slug.as_str()),
                        block_type: locked_type_exec(self.lock, slug.as_str()),
                        detail,
                        action,
                    },
                );
                assert(changes_view(out@) =~= before.push(changes_view(out@).last()));
            } else if n < usize::MAX {
                n = n + 1;
            }
            proof {
                assert(changes_view(out@) =~= start + wires_added_findings(lock, refo, cfgo, wv.take(i + 1)).0);
            }
            i = i + 1;
        }
        assert(wv.take(wv.len() as int) =~= wv);
        n
    }

    fn wires_removed_section(&self, ws: &Vec<crate::doc::WireView>, out: &mut Vec<ManagedChange>, Ghost(lock): Ghost<Lockfile>, Ghost(refo): Ghost<Seq<(SObject, SElement)>>, Ghost(cfgo): Ghost<Seq<(SObject, SElement)>>) -> (r: usize)
        requires
            self.models(lock, refo, cfgo),
        ensures
            changes_view(final(out)@) == changes_view(old(out)@) + wires_removed_findings(
                lock,
                refo,
                cfgo,
                ws@.map_values(|w: crate::doc::WireView| w@),
            ).0,
            r as nat == sat(
                wires_removed_findings(lock, refo, cfgo, ws@.map_values(|w: crate::doc::WireView| w@)).1,
            ),
    {
        let ghost wv = ws@.map_values(|w: crate::doc::WireView| w@);
        let ghost start = changes_view(out@);
        let mut n: usize = 0;
        let mut i: usize = 0;
        assert(start + wires_removed_findings(lock, refo, cfgo, wv.take(0)).0 =~= start);
        while i < ws.len()
            invariant
                0 <= i <= wv.len(),
                self.models(lock, refo, cfgo),
                wv == ws@.map_values(|w: crate::doc::WireView| w@),
                changes_view(out@) == start + wires_removed_findings(lock, refo, cfgo, wv.take(i as int)).0,
                n as nat == sat(wires_removed_findings(lock, refo, cfgo, wv.take(i as int)).1),
            decreases wv.len() - i,
        {
            proof {
                assert(wv.take(i + 1).drop_last() =~= wv.take(i as int));
                assert(wv.take(i + 1).last() == ws@[i as int]@);
            }
            let ghost before = changes_view(out@);
            let w = &ws[i];
            let label = self.label(w.from_port.as_str(), Ghost(lock), Ghost(refo), Ghost(cfgo));
            if let Some((slug, key)) = managed_port(self.lock, w.to_port.as_str()) {
                let mut detail = String::new();
                push_str(&mut detail, "wire ");
                push_str(&mut detail, label.as_str());
                push_str(&mut detail, " -> ");
                push_str(&mut detail, slug.as_str());
                push_str(&mut detail, ".");
                push_str(&mut detail, key.as_str());
                push_str(&mut detail, " deleted");
                assert(detail@ =~= gone_wire_detail(label@, slug@ + "."@ + key@));
                let mut action = String::new();
                push_str(&mut action, "a recompile redraws it; remove `");
                push_str(&mut action, key.as_str());
                push_str(&mut action, ": …` from `");
                push_str(&mut action, slug.as_str());
                push_str(&mut action, "` in source to accept the removal");
                assert(action@ =~= gone_wire_action(slug@, key@));
                out.push(
                    ManagedChange {
                        slug: string_of(slug.as_str()),
                        block_type: locked_type_exec(self.lock, slug.as_str()),
                        detail,
                        action,
                    },
                );
                assert(changes_view(out@) =~= before.push(changes_view(out@).last()));
            } else if is_compiler_drawn(self.lock, w.from_port.as_str(), w.to_port.as_str()) {
                let sink = self.label(w.to_port.as_str(), Ghost(lock), Ghost(refo), Ghost(cfgo));
                let mut detail = String::new();
                push_str(&mut detail, "wire ");
                push_str(&mut detail, label.as_str());
                push_str(&mut detail, " -> ");
                push_str(&mut detail, sink.as_str());
                push_str(&mut detail, " deleted");
                assert(detail@ =~= gone_wire_detail(label@, sink@));
                let mut action = String::new();
                push_str(&mut action, "the compiler drew this wire (a `");
                push_str(&mut action, sink.as_str());
                push_str(&mut action, " <- …` statement); a recompile redraws it — delete the statement to accept the removal");
                assert(action@ =~= drawn_wire_action(sink@));
                let bt = String::new();
                assert(bt@ =~= Seq::<char>::empty());
                out.push(ManagedChange { slug: sink, block_type: bt, detail, action });
                assert(changes_view(out@) =~= before.push(changes_view(out@).last()));
            } else if n < usize::MAX {
                n = n + 1;
            }
            proof {
                assert(changes_view(out@) =~= start + wires_removed_findings(lock, refo, cfgo, wv.take(i + 1)).0);
            }
            i = i + 1;
        }
        assert(wv.take(wv.len() as int) =~= wv);
        n
    }
}

/// What the diff against the reference adds to a report: the adopt
/// suggestions, the managed findings, the unmanaged count and the locale
/// renames.
pub open spec fn diff_findings(
    lock: Lockfile,
    cfg_root: SElement,
    refo: Seq<(SObject, SElement)>,
    cfgo: Seq<(SObject, SElement)>,
    d: crate::diff::DocDiff,
) -> (Seq<SAdoptable>, Seq<SChange>, nat, nat) {
    let adopt = adopt_spec(lock, d.added@.map_values(|o: ObjectSummary| o@));
    let rem = removed_count(lock, d.removed@.map_values(|o: ObjectSummary| o@));
    let ren = renamed_findings(lock, d.renamed@.map_values(|x: crate::diff::Rename| x@));
    let par = param_findings(
        lock,
        cfg_root,
        refo,
        cfgo,
        d.param_changes@.map_values(|x: crate::diff::ParamChange| x@),
    );
    let wa = wires_added_findings(
        lock,
        refo,
        cfgo,
        d.wires_added@.map_values(|w: crate::doc::WireView| w@),
    );
    let wr = wires_removed_findings(
        lock,
        refo,
        cfgo,
        d.wires_removed@.map_values(|w: crate::doc::WireView| w@),
    );
    (adopt.0, ren.0 + par.0 + wa.0 + wr.0, adopt.1 + rem + ren.1 + par.1 + wa.1 + wr.1, ren.2)
}

/// The findings that need no reference: deleted managed blocks and
/// externs, in slug order.
pub open spec fn lock_findings(lock: Lockfile, cfg_root: SElement) -> Seq<SChange> {
    let cfgo = objects_in(cfg_root, seq![]);
    deleted_spec(lock.objects@, cfgo) + extern_gone_spec(lock.externals@, cfgo)
}

/// The report against a reference `refo`, `d` the diff from it to the
/// config.
pub open spec fn diff_report(
    lock: Lockfile,
    cfg_root: SElement,
    refo: Seq<(SObject, SElement)>,
    d: crate::diff::DocDiff,
    r: StatusReport,
) -> bool {
    let f = diff_findings(lock, cfg_root, refo, objects_in(cfg_root, seq![]), d);
    &&& r.adoptable@.map_values(|a: Adoptable| a@) == f.0
    &&& changes_view(r.managed@) == lock_findings(lock, cfg_root) + f.1
    &&& r.unmanaged_changes as nat == sat(f.2)
    &&& r.locale_renames as nat == f.3
}

proof fn lemma_sat_add(x: nat, y: nat)
    ensures
        sat(sat(x) + sat(y)) == sat(x + y),
{
}

fn sat_add(a: usize, b: usize) -> (r: usize)
    ensures
        r as nat == sat(a as nat + b as nat),
{
    if a > usize::MAX - b {
        usize::MAX
    } else {
        a + b
    }
}

/// Classify how `cfg` (typically a fresh download) drifted from the
/// lockfile's baseline. `reference` is the last compiled output — without
/// it only the lock-derivable findings are produced: pending removals,
/// deleted managed blocks, deleted externs.
pub fn triage(cfg: &LoxoneDoc, reference: Option<&LoxoneDoc>, lock: &Lockfile) -> (r: StatusReport)
    ensures
        r.pending_push@.map_values(|t: Tombstone| tomb_view(t)) == pending_spec(
            lock.removed@,
            objects_in(cfg@.root, seq![]),
        ),
        r.has_reference == reference is Some,
        reference is None ==> {
            &&& changes_view(r.managed@) == lock_findings(*lock, cfg@.root)
            &&& r.adoptable@.len() == 0
            &&& r.unmanaged_changes == 0
            &&& r.locale_renames == 0
        },
        reference matches Some(rd) ==> exists|d: crate::diff::DocDiff|
            #[trigger] crate::diff::diff_spec(
                objects_in(rd@.root, seq![]),
                objects_in(cfg@.root, seq![]),
                crate::doc::objects_wires(objects_in(rd@.root, seq![])),
                crate::doc::objects_wires(objects_in(cfg@.root, seq![])),
                d,
            ) && diff_report(*lock, cfg@.root, objects_in(rd@.root, seq![]), d, r),
{
    let ghost cfgo = objects_in(cfg@.root, seq![]);
    let cfg_objs = cfg.objects();
    let pending = pending_push(lock, &cfg_objs, Ghost(cfgo));
    let mut managed: Vec<ManagedChange> = Vec::new();
    deleted_objects(lock, &cfg_objs, &mut managed, Ghost(cfgo));
    gone_externs(lock, &cfg_objs, &mut managed, Ghost(cfgo));
    let ghost base = changes_view(managed@);
    proof {
        assert(base =~= deleted_spec(lock.objects@, cfgo) + extern_gone_spec(lock.externals@, cfgo));
    }
    let rd = match reference {
        None => {
            let r = StatusReport {
                pending_push: pending,
                managed,
                adoptable: Vec::new(),
                unmanaged_changes: 0,
                locale_renames: 0,
                has_reference: false,
            };
            return r;
        },
        Some(rd) => rd,
    };
    let ghost refo = objects_in(rd@.root, seq![]);
    let d = diff(rd, cfg);
    let ri = rd.index();
    let ci = cfg.index();
    let scope = Scope {
        lock,
        ref_objs: rd.objects(),
        cfg_objs,
        ref_owner: ri.port_owner,
        cfg_owner: ci.port_owner,
    };
    assert(scope.models(*lock, refo, cfgo));
    let (adoptable, n_added) = adopt_section(lock, &d.added);
    let n_removed = removed_section(lock, &d.removed);
    let (n_renamed, locale) = renamed_section(lock, &d.renamed, &mut managed);
    let n_params = scope.param_section(cfg, &d.param_changes, &mut managed, Ghost(*lock), Ghost(refo), Ghost(cfgo));
    let n_wa = scope.wires_added_section(&d.wires_added, &mut managed, Ghost(*lock), Ghost(refo), Ghost(cfgo));
    let n_wr = scope.wires_removed_section(&d.wires_removed, &mut managed, Ghost(*lock), Ghost(refo), Ghost(cfgo));
    let n = sat_add(sat_add(sat_add(sat_add(sat_add(n_added, n_removed), n_renamed), n_params), n_wa), n_wr);
    let ghost f = diff_findings(*lock, cfg@.root, refo, cfgo, d);
    proof {
        let adopt = adopt_spec(*lock, d.added@.map_values(|o: ObjectSummary| o@));
        let rem = removed_count(*lock, d.removed@.map_values(|o: ObjectSummary| o@));
        let ren = renamed_findings(*lock, d.renamed@.map_values(|x: crate::diff::Rename| x@));
        let par = param_findings(*lock, cfg@.root, refo, cfgo, d.param_changes@.map_values(|x: crate::diff::ParamChange| x@));
        let wa = wires_added_findings(*lock, refo, cfgo, d.wires_added@.map_values(|w: crate::doc::WireView| w@));
        let wr = wires_removed_findings(*lock, refo, cfgo, d.wires_removed@.map_values(|w: crate::doc::WireView| w@));
        lemma_sat_add(adopt.1, rem);
        lemma_sat_add(adopt.1 + rem, ren.1);
        lemma_sat_add(adopt.1 + rem + ren.1, par.1);
        lemma_sat_add(adopt.1 + rem + ren.1 + par.1, wa.1);
        lemma_sat_add(adopt.1 + rem + ren.1 + par.1 + wa.1, wr.1);
        assert(changes_view(managed@) =~= base + f.1);
    }
    let r = StatusReport {
        pending_push: pending,
        managed,
        adoptable,
        unmanaged_changes: n,
        locale_renames: locale,
        has_reference: true,
    };
    assert(diff_report(*lock, cfg@.root, refo, d, r));
    r
}

} // verus!
